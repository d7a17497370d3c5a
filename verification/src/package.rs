//! The package entity: a named, versioned dependency descriptor. A package
//! keeps the name its author declared and a canonical name normalized per
//! packaging rules (lowercase, runs of `-`, `_`, `.` collapsed to one `-`),
//! which is the unique key within an environment.

use vstd::prelude::*;
use vstd::string::StringSliceAdditionalSpecFns;

use crate::error::HuakError;
use crate::version::ascii_to_string;
use crate::version::ascii_view;
use crate::version::op_bytes;
use crate::version::op_from_bytes;
use crate::version::push_op;
use crate::version::version_bytes;
use crate::version::version_grammar;
use crate::version::wf_version;
use crate::version::Version;
use crate::version::VersionOperator;

verus! {

// ---------------------------------------------------------------------------
// Data model
// ---------------------------------------------------------------------------

/// Core metadata of a package. The engine carries it opaquely; it never
/// takes part in package identity beyond presence.
#[derive(Clone, Copy, PartialEq, Eq, Structural, Debug)]
pub struct PackageMetadata;

/// A platform compatibility tag, e.g. an ABI/platform triple.
#[derive(Debug)]
pub struct PlatformTag {
    pub value: String,
}

/// The version constraint of a dependency: an operator and a version.
#[derive(Debug)]
pub struct PackageSpecifier {
    pub operator: VersionOperator,
    pub version: Version,
}

/// Metadata bundle written beside an installed package, one file name per
/// field; `INSTALLER`, `METADATA` and `RECORD` are required, the rest are
/// meaningful by their presence alone.
#[derive(Debug, PartialEq, Eq)]
pub struct DistInfo {
    pub installer_file: String,
    pub metadata_file: String,
    pub record_file: String,
    pub license_file: Option<String>,
    pub requested_file: Option<String>,
    pub wheel_file: Option<String>,
}

/// A Python package descriptor. A bare name means "any version"
/// (`specifier` absent); equality is decided by canonical name, specifier
/// and platform tags, never by metadata or dist-info.
#[derive(Debug)]
pub struct Package {
    pub name: String,
    pub canonical_name: String,
    pub core_metadata: PackageMetadata,
    pub specifier: Option<PackageSpecifier>,
    pub platform_tags: Vec<PlatformTag>,
    pub distribution_info: Option<DistInfo>,
}

// ---------------------------------------------------------------------------
// Name bytes and canonicalization
// ---------------------------------------------------------------------------

pub open spec fn is_alnum_byte(b: u8) -> bool {
    (48 <= b && b <= 57) || (65 <= b && b <= 90) || (97 <= b && b <= 122)
}

pub open spec fn is_name_sep_byte(b: u8) -> bool {
    b == 45 || b == 95 || b == 46
}

pub open spec fn is_name_byte(b: u8) -> bool {
    is_alnum_byte(b) || is_name_sep_byte(b)
}

/// A well-formed declared name: non-empty name bytes, first and last
/// alphanumeric.
pub open spec fn name_ok(s: Seq<u8>) -> bool {
    &&& s.len() >= 1
    &&& forall|i: int| 0 <= i < s.len() ==> is_name_byte(#[trigger] s[i])
    &&& is_alnum_byte(s[0])
    &&& is_alnum_byte(s[s.len() - 1])
}

/// Uppercase ASCII folded to lowercase; anything else kept.
pub open spec fn lower_byte(b: u8) -> u8 {
    if 65 <= b && b <= 90 {
        (b + 32) as u8
    } else {
        b
    }
}

/// Canonical name bytes from `i` on: lowercase, with every run of `-`, `_`,
/// `.` collapsed to a single `-` (emitted at the end of the run).
pub open spec fn canon_from(s: Seq<u8>, i: int) -> Seq<u8>
    decreases s.len() - i when 0 <= i <= s.len()
{
    if i >= s.len() {
        Seq::empty()
    } else if is_name_sep_byte(s[i]) {
        if i + 1 < s.len() && is_name_sep_byte(s[i + 1]) {
            canon_from(s, i + 1)
        } else {
            seq![45u8] + canon_from(s, i + 1)
        }
    } else {
        seq![lower_byte(s[i])] + canon_from(s, i + 1)
    }
}

/// The canonical form of a name's bytes.
pub open spec fn canon_bytes(s: Seq<u8>) -> Seq<u8> {
    canon_from(s, 0)
}

/// The characters of a string as bytes; faithful for ASCII strings.
pub open spec fn str_bytes(s: Seq<char>) -> Seq<u8> {
    s.map_values(|c: char| c as u8)
}

pub proof fn lemma_canon_from_ascii(s: Seq<u8>, i: int)
    requires
        0 <= i <= s.len(),
        forall|k: int| 0 <= k < s.len() ==> #[trigger] s[k] < 128,
    ensures
        forall|k: int| 0 <= k < canon_from(s, i).len() ==> #[trigger] canon_from(s, i)[k] < 128,
    decreases s.len() - i,
{
    if i < s.len() {
        lemma_canon_from_ascii(s, i + 1);
        let r = canon_from(s, i + 1);
        assert forall|k: int| 0 <= k < canon_from(s, i).len() implies #[trigger] canon_from(s, i)[k]
            < 128 by {
            if is_name_sep_byte(s[i]) {
                if !(i + 1 < s.len() && is_name_sep_byte(s[i + 1])) {
                    assert(canon_from(s, i) == seq![45u8] + r);
                    if k > 0 {
                        assert(canon_from(s, i)[k] == r[k - 1]);
                    }
                }
            } else {
                assert(canon_from(s, i) == seq![lower_byte(s[i])] + r);
                if k > 0 {
                    assert(canon_from(s, i)[k] == r[k - 1]);
                } else {
                    assert(s[i] < 128);
                    assert(lower_byte(s[i]) < 128);
                }
            }
        }
    }
}

/// An ASCII string's UTF-8 bytes are its characters, one byte each.
pub proof fn lemma_ascii_str_bytes(s: &str)
    requires
        vstd::utf8::is_ascii_chars(s@),
    ensures
        s.spec_bytes() == str_bytes(s@),
        ascii_view(s.spec_bytes()) == s@,
{
    vstd::utf8::is_ascii_chars_encode_utf8(s@);
    assert(s.spec_bytes() =~= str_bytes(s@));
    assert(ascii_view(s.spec_bytes()) =~= s@);
}

/// Canonicalize a name's bytes, per `canon_bytes`.
pub(crate) fn canonicalize_bytes(bytes: &[u8]) -> (r: Vec<u8>)
    ensures
        r@ == canon_bytes(bytes@),
{
    let ghost s = bytes@;
    let len = bytes.len();
    let mut out: Vec<u8> = Vec::new();
    let mut i: usize = 0;
    while i < len
        invariant
            i <= len,
            len == s.len(),
            s == bytes@,
            canon_bytes(s) == out@ + canon_from(s, i as int),
        decreases len - i,
    {
        let b = bytes[i];
        if b == 45 || b == 95 || b == 46 {
            if i + 1 < len {
                let nb = bytes[i + 1];
                if nb == 45 || nb == 95 || nb == 46 {
                    // middle of a separator run: emit nothing
                } else {
                    out.push(45);
                }
            } else {
                out.push(45);
            }
        } else {
            let lb: u8 = if 65 <= b && b <= 90 {
                b + 32
            } else {
                b
            };
            assert(lb == lower_byte(s[i as int]));
            out.push(lb);
        }
        proof {
            assert(canon_bytes(s) =~= out@ + canon_from(s, i as int + 1));
        }
        i = i + 1;
    }
    proof {
        assert(canon_bytes(s) =~= out@);
    }
    out
}

/// The canonical (normalized) form of a package name: lowercase, with runs
/// of `-`, `_`, `.` collapsed to a single `-`.
pub fn canonicalize_name(name: &str) -> (r: String)
    requires
        vstd::utf8::is_ascii_chars(name@),
    ensures
        r@ == ascii_view(canon_bytes(str_bytes(name@))),
{
    proof {
        lemma_ascii_str_bytes(name);
    }
    let out = canonicalize_bytes(name.as_bytes());
    proof {
        vstd::utf8::is_ascii_chars_nat_bound(name@);
        assert(forall|k: int|
            0 <= k < name.spec_bytes().len() ==> #[trigger] name.spec_bytes()[k] < 128);
        lemma_canon_from_ascii(name.spec_bytes(), 0);
    }
    ascii_to_string(out)
}

// ---------------------------------------------------------------------------
// Dependency string grammar and rendering
// ---------------------------------------------------------------------------

/// First index at or after `i` holding a non-name byte (or the end of `s`).
pub open spec fn name_run_end(s: Seq<u8>, i: int) -> int
    decreases s.len() - i when 0 <= i <= s.len()
{
    if i < s.len() && is_name_byte(s[i]) {
        name_run_end(s, i + 1)
    } else {
        i
    }
}

pub proof fn lemma_name_run_end_bounds(s: Seq<u8>, i: int)
    requires
        0 <= i <= s.len(),
    ensures
        i <= name_run_end(s, i) <= s.len(),
        forall|k: int| i <= k < name_run_end(s, i) ==> is_name_byte(s[k]),
        name_run_end(s, i) < s.len() ==> !is_name_byte(s[name_run_end(s, i)]),
    decreases s.len() - i,
{
    if i < s.len() && is_name_byte(s[i]) {
        lemma_name_run_end_bounds(s, i + 1);
    }
}

pub open spec fn is_op_byte(b: u8) -> bool {
    b == 61 || b == 33 || b == 126 || b == 60 || b == 62
}

/// First index at or after `i` holding a non-operator byte.
pub open spec fn op_run_end(s: Seq<u8>, i: int) -> int
    decreases s.len() - i when 0 <= i <= s.len()
{
    if i < s.len() && is_op_byte(s[i]) {
        op_run_end(s, i + 1)
    } else {
        i
    }
}

/// The dependency strings `Package::parse` accepts: a well-formed name,
/// either alone (any version) or followed by an operator and a canonical
/// version.
pub open spec fn dep_grammar(s: Seq<u8>) -> bool {
    let ne = name_run_end(s, 0);
    &&& ne >= 1
    &&& is_alnum_byte(s[0])
    &&& is_alnum_byte(s[ne - 1])
    &&& (ne == s.len() || ({
        let oe = op_run_end(s, ne);
        &&& crate::version::op_of_bytes(s.subrange(ne, oe)) is Some
        &&& version_grammar(s.subrange(oe, s.len() as int))
    }))
}

/// The bytes of a package's dependency string: the declared name, then the
/// operator and version when a specifier is present.
pub open spec fn dep_bytes(p: Package) -> Seq<u8> {
    str_bytes(p.name@) + match p.specifier {
        None => Seq::<u8>::empty(),
        Some(sp) => op_bytes(sp.operator) + version_bytes(sp.version),
    }
}

/// Well-formed package: an ASCII declared name of name bytes, the matching
/// canonical name, and a well-formed specifier version when present.
pub open spec fn wf_package(p: Package) -> bool {
    &&& vstd::utf8::is_ascii_chars(p.name@)
    &&& name_ok(str_bytes(p.name@))
    &&& vstd::utf8::is_ascii_chars(p.canonical_name@)
    &&& str_bytes(p.canonical_name@) == canon_bytes(str_bytes(p.name@))
    &&& match p.specifier {
        None => true,
        Some(sp) => wf_version(sp.version),
    }
}

/// ASCII bytes decode to characters that encode back to the same bytes.
pub proof fn lemma_bytes_view_roundtrip(b: Seq<u8>)
    requires
        forall|i: int| 0 <= i < b.len() ==> #[trigger] b[i] < 128,
    ensures
        str_bytes(ascii_view(b)) == b,
        vstd::utf8::is_ascii_chars(ascii_view(b)),
{
    assert(str_bytes(ascii_view(b)) =~= b);
    assert forall|i: int| 0 <= i < ascii_view(b).len() implies '\0' <= #[trigger] ascii_view(b)[i]
        <= '\u{7f}' by {
        assert(ascii_view(b)[i] == b[i] as char);
        assert(b[i] < 128);
    }
}

/// A UTF-8 encoding whose bytes all lie below 0x80 can only spell ASCII
/// characters: any wider encoding leads with a byte of 0xC0 or above.
pub proof fn lemma_ascii_bytes_ascii_chars(chars: Seq<char>)
    requires
        forall|i: int|
            0 <= i < vstd::utf8::encode_utf8(chars).len()
                ==> #[trigger] vstd::utf8::encode_utf8(chars)[i] < 128,
    ensures
        vstd::utf8::is_ascii_chars(chars),
    decreases chars.len(),
{
    if chars.len() > 0 {
        vstd::utf8::char_is_scalar(chars[0]);
        let c0 = chars[0] as u32;
        let e = vstd::utf8::encode_scalar(c0);
        let rest = vstd::utf8::encode_utf8(chars.drop_first());
        assert(vstd::utf8::encode_utf8(chars) == e + rest);
        assert((e + rest)[0] == e[0]);
        assert(e[0] < 128);
        if !vstd::utf8::has_width_1_encoding(c0) {
            if vstd::utf8::has_width_2_encoding(c0) {
                assert(e[0] == vstd::utf8::leading_byte_width_2(c0));
                assert((0xC0 | ((c0 >> 6) & 0x1F) as u8) >= 128) by (bit_vector);
            } else if vstd::utf8::has_width_3_encoding(c0) {
                assert(e[0] == vstd::utf8::leading_byte_width_3(c0));
                assert((0xE0 | ((c0 >> 12) & 0x0F) as u8) >= 128) by (bit_vector);
            } else {
                assert(e[0] == vstd::utf8::leading_byte_width_4(c0));
                assert((0xF0 | ((c0 >> 18) & 0x7) as u8) >= 128) by (bit_vector);
            }
            assert(false);
        }
        assert(chars[0] as u32 <= 0x7f);
        vstd::utf8::char_u32_cast(chars[0], c0);
        assert(chars[0] as int == c0 as int);
        assert('\0' <= chars[0] <= '\u{7f}');
        assert forall|i: int| 0 <= i < rest.len() implies #[trigger] rest[i] < 128 by {
            assert((e + rest)[e.len() + i] == rest[i]);
        }
        lemma_ascii_bytes_ascii_chars(chars.drop_first());
        assert forall|i: int| 0 <= i < chars.len() implies '\0' <= #[trigger] chars[i]
            <= '\u{7f}' by {
            if i > 0 {
                assert(chars.drop_first()[i - 1] == chars[i]);
            }
        }
    }
}

/// A string whose UTF-8 bytes are all ASCII spells those bytes, one
/// character each.
pub proof fn lemma_ascii_str(s: &str)
    requires
        forall|i: int| 0 <= i < s.spec_bytes().len() ==> #[trigger] s.spec_bytes()[i] < 128,
    ensures
        vstd::utf8::is_ascii_chars(s@),
        s.spec_bytes() == str_bytes(s@),
        ascii_view(s.spec_bytes()) == s@,
{
    assert forall|i: int|
        0 <= i < vstd::utf8::encode_utf8(s@).len() implies #[trigger] vstd::utf8::encode_utf8(
        s@,
    )[i] < 128 by {
        assert(s.spec_bytes()[i] < 128);
    }
    lemma_ascii_bytes_ascii_chars(s@);
    lemma_ascii_str_bytes(s);
}

// ---------------------------------------------------------------------------
// Parsing
// ---------------------------------------------------------------------------

/// Whether whole bytes form a well-formed name, per `name_ok`.
pub(crate) fn check_name(bytes: &[u8]) -> (r: bool)
    ensures
        r == name_ok(bytes@),
{
    let len = bytes.len();
    if len == 0 {
        return false;
    }
    let b0 = bytes[0];
    if !((48 <= b0 && b0 <= 57) || (65 <= b0 && b0 <= 90) || (97 <= b0 && b0 <= 122)) {
        return false;
    }
    let bl = bytes[len - 1];
    if !((48 <= bl && bl <= 57) || (65 <= bl && bl <= 90) || (97 <= bl && bl <= 122)) {
        return false;
    }
    let mut i: usize = 0;
    while i < len
        invariant
            i <= len,
            len == bytes@.len(),
            forall|j: int| 0 <= j < i ==> is_name_byte(#[trigger] bytes@[j]),
        decreases len - i,
    {
        let b = bytes[i];
        if !((48 <= b && b <= 57) || (65 <= b && b <= 90) || (97 <= b && b <= 122) || b == 45
            || b == 95 || b == 46) {
            return false;
        }
        i = i + 1;
    }
    true
}

impl Package {
    /// Split a dependency string such as `black==22.8.0`, or a bare name
    /// meaning "any version", into a package with a canonicalized name.
    /// Succeeds exactly on the strings of `dep_grammar`, and the parsed
    /// package renders back to the input byte for byte.
    pub fn parse(s: &str) -> (r: Result<Package, HuakError>)
        ensures
            r is Ok <==> dep_grammar(s.spec_bytes()),
            r matches Ok(p) ==> {
                &&& wf_package(p)
                &&& dep_bytes(p) == s.spec_bytes()
                &&& p.platform_tags@.len() == 0
                &&& p.distribution_info is None
            },
            r matches Err(e) ==> (e matches HuakError::PackageParseError { input } && input@
                == s@),
    {
        let bytes = s.as_bytes();
        match Self::parse_bytes(bytes) {
            Some(p) => Ok(p),
            None => Err(HuakError::PackageParseError { input: s.to_owned() }),
        }
    }

    /// Parse a dependency string from raw bytes.
    pub(crate) fn parse_bytes(bytes: &[u8]) -> (r: Option<Package>)
        ensures
            r is Some <==> dep_grammar(bytes@),
            r matches Some(p) ==> {
                &&& wf_package(p)
                &&& dep_bytes(p) == bytes@
                &&& p.platform_tags@.len() == 0
                &&& p.distribution_info is None
            },
    {
        let ghost s = bytes@;
        let len = bytes.len();
        let mut ne: usize = 0;
        while ne < len && (48 <= bytes[ne] && bytes[ne] <= 57 || 65 <= bytes[ne] && bytes[ne] <= 90
            || 97 <= bytes[ne] && bytes[ne] <= 122 || bytes[ne] == 45 || bytes[ne] == 95
            || bytes[ne] == 46)
        invariant
            ne <= len,
            len == s.len(),
            s == bytes@,
            name_run_end(s, 0) == name_run_end(s, ne as int),
        decreases len - ne,
        {
            ne = ne + 1;
        }
        assert(name_run_end(s, 0) == ne as int);
        proof {
            lemma_name_run_end_bounds(s, 0);
        }
        if ne == 0 {
            return None;
        }
        let b0 = bytes[0];
        if !(48 <= b0 && b0 <= 57 || 65 <= b0 && b0 <= 90 || 97 <= b0 && b0 <= 122) {
            return None;
        }
        let bl = bytes[ne - 1];
        if !(48 <= bl && bl <= 57 || 65 <= bl && bl <= 90 || 97 <= bl && bl <= 122) {
            return None;
        }
        let name_slice = vstd::slice::slice_subrange(bytes, 0, ne);
        let ghost name_bytes = s.subrange(0, ne as int);
        proof {
            assert(forall|i: int| 0 <= i < name_bytes.len() ==> is_name_byte(#[trigger] name_bytes[i]));
            assert(forall|i: int| 0 <= i < name_bytes.len() ==> #[trigger] name_bytes[i] < 128);
            lemma_bytes_view_roundtrip(name_bytes);
            lemma_canon_from_ascii(name_bytes, 0);
            lemma_bytes_view_roundtrip(canon_bytes(name_bytes));
        }
        let name = ascii_to_string(vstd::slice::slice_to_vec(name_slice));
        let canonical_name = ascii_to_string(canonicalize_bytes(name_slice));
        if ne == len {
            let p = Package {
                name,
                canonical_name,
                core_metadata: PackageMetadata,
                specifier: None,
                platform_tags: Vec::new(),
                distribution_info: None,
            };
            proof {
                assert(dep_bytes(p) =~= s);
            }
            Some(p)
        } else {
            let mut oe: usize = ne;
            while oe < len && (bytes[oe] == 61 || bytes[oe] == 33 || bytes[oe] == 126
                || bytes[oe] == 60 || bytes[oe] == 62)
            invariant
                ne <= oe <= len,
                len == s.len(),
                s == bytes@,
                op_run_end(s, ne as int) == op_run_end(s, oe as int),
            decreases len - oe,
            {
                oe = oe + 1;
            }
            assert(op_run_end(s, ne as int) == oe as int);
            let operator = match op_from_bytes(vstd::slice::slice_subrange(bytes, ne, oe)) {
                Some(op) => op,
                None => {
                    return None;
                },
            };
            let version = match Version::parse_bytes(vstd::slice::slice_subrange(bytes, oe, len)) {
                Some(v) => v,
                None => {
                    return None;
                },
            };
            let p = Package {
                name,
                canonical_name,
                core_metadata: PackageMetadata,
                specifier: Some(PackageSpecifier { operator, version }),
                platform_tags: Vec::new(),
                distribution_info: None,
            };
            proof {
                assert(dep_bytes(p) =~= s);
            }
            Some(p)
        }
    }
}

// ---------------------------------------------------------------------------
// Rendering and accessors
// ---------------------------------------------------------------------------

/// Append an ASCII string's bytes.
pub(crate) fn push_str_ascii(out: &mut Vec<u8>, s: &str)
    requires
        vstd::utf8::is_ascii_chars(s@),
    ensures
        final(out)@ == old(out)@ + str_bytes(s@),
{
    proof {
        lemma_ascii_str_bytes(s);
    }
    let b = s.as_bytes();
    let n = b.len();
    let mut i: usize = 0;
    while i < n
        invariant
            i <= n,
            n == b@.len(),
            out@ == old(out)@ + b@.subrange(0, i as int),
        decreases n - i,
    {
        out.push(b[i]);
        proof {
            assert(out@ =~= old(out)@ + b@.subrange(0, i as int + 1));
        }
        i = i + 1;
    }
    proof {
        assert(b@.subrange(0, n as int) =~= b@);
    }
}

impl Package {
    /// Construct a package from pre-split parts: a name, an operator
    /// spelling and a version string.
    pub fn from_str_parts(name: &str, operator: &str, version: &str) -> (r: Result<
        Package,
        HuakError,
    >)
        ensures
            r is Ok <==> name_ok(name.spec_bytes()) && crate::version::op_of_bytes(
                operator.spec_bytes(),
            ) is Some && version_grammar(version.spec_bytes()),
            r matches Ok(p) ==> {
                &&& wf_package(p)
                &&& str_bytes(p.name@) == name.spec_bytes()
                &&& p.specifier matches Some(sp) && Some(sp.operator) == crate::version::op_of_bytes(
                    operator.spec_bytes(),
                ) && version_bytes(sp.version) == version.spec_bytes()
                &&& p.platform_tags@.len() == 0
                &&& p.distribution_info is None
            },
            r matches Err(e) ==> {
                ||| (e matches HuakError::PackageParseError { input } && input@ == name@)
                ||| (e matches HuakError::InvalidOperatorError { input } && input@ == operator@)
                ||| (e matches HuakError::VersionParseError { input } && input@ == version@)
            },
    {
        let name_bytes = name.as_bytes();
        if !check_name(name_bytes) {
            return Err(HuakError::PackageParseError { input: name.to_owned() });
        }
        let op = match VersionOperator::parse(operator) {
            Ok(op) => op,
            Err(e) => {
                return Err(e);
            },
        };
        let ver = match Version::parse(version) {
            Ok(v) => v,
            Err(e) => {
                return Err(e);
            },
        };
        proof {
            assert(forall|i: int|
                0 <= i < name.spec_bytes().len() ==> #[trigger] name.spec_bytes()[i] < 128);
            lemma_bytes_view_roundtrip(name.spec_bytes());
            lemma_canon_from_ascii(name.spec_bytes(), 0);
            lemma_bytes_view_roundtrip(canon_bytes(name.spec_bytes()));
        }
        let owned_name = ascii_to_string(vstd::slice::slice_to_vec(name_bytes));
        let canonical_name = ascii_to_string(canonicalize_bytes(name_bytes));
        Ok(
            Package {
                name: owned_name,
                canonical_name,
                core_metadata: PackageMetadata,
                specifier: Some(PackageSpecifier { operator: op, version: ver }),
                platform_tags: Vec::new(),
                distribution_info: None,
            },
        )
    }

    /// The name as declared by the package's author.
    pub fn name(&self) -> (r: &String)
        ensures
            r@ == self.name@,
    {
        &self.name
    }

    /// The normalized name used as the unique key within an environment.
    pub fn canonical_name(&self) -> (r: &String)
        ensures
            r@ == self.canonical_name@,
    {
        &self.canonical_name
    }

    /// The constraint operator, absent for a bare "any version" dependency.
    pub fn version_operator(&self) -> (r: Option<&VersionOperator>)
        ensures
            match self.specifier {
                Some(sp) => r matches Some(op) && *op == sp.operator,
                None => r is None,
            },
    {
        match &self.specifier {
            Some(sp) => Some(&sp.operator),
            None => None,
        }
    }

    /// The constraint version, absent for a bare "any version" dependency.
    pub fn version(&self) -> (r: Option<&Version>)
        ensures
            match self.specifier {
                Some(sp) => r matches Some(v) && *v == sp.version,
                None => r is None,
            },
    {
        match &self.specifier {
            Some(sp) => Some(&sp.version),
            None => None,
        }
    }

    /// The constraint version's canonical string, empty for a bare
    /// dependency.
    pub fn version_str(&self) -> (r: String)
        requires
            wf_package(*self),
        ensures
            match self.specifier {
                Some(sp) => r@ == ascii_view(version_bytes(sp.version)),
                None => r@ == Seq::<char>::empty(),
            },
    {
        match &self.specifier {
            Some(sp) => sp.version.version_str(),
            None => String::new(),
        }
    }

    /// The dependency string: the declared name followed by the operator and
    /// version when a specifier is present. Together with `parse`, parsing a
    /// valid dependency string and rendering it gives the string back
    /// unchanged (round trip).
    pub fn dependency_str(&self) -> (r: String)
        requires
            wf_package(*self),
        ensures
            r@ == ascii_view(dep_bytes(*self)),
    {
        let mut out: Vec<u8> = Vec::new();
        push_str_ascii(&mut out, self.name.as_str());
        match &self.specifier {
            Some(sp) => {
                push_op(&mut out, sp.operator);
                sp.version.push_bytes(&mut out);
                proof {
                    assert(out@ =~= dep_bytes(*self));
                }
            },
            None => {
                proof {
                    assert(out@ =~= dep_bytes(*self));
                }
            },
        }
        proof {
            assert(forall|i: int|
                0 <= i < str_bytes(self.name@).len() ==> #[trigger] str_bytes(self.name@)[i]
                    < 128);
            match &self.specifier {
                Some(sp) => {
                    crate::version::lemma_version_bytes_ascii(sp.version);
                },
                None => (),
            }
            assert(crate::version::ascii_bytes(out@));
        }
        ascii_to_string(out)
    }
}

// ---------------------------------------------------------------------------
// Equality and cloning
// ---------------------------------------------------------------------------

/// The platform tags as ghost character sequences.
pub open spec fn tags_view(p: Package) -> Seq<Seq<char>> {
    p.platform_tags@.map_values(|t: PlatformTag| t.value@)
}

/// Equality of version constraints: both absent, or the same operator and
/// segment-for-segment equal versions.
pub open spec fn spec_specifier_eq(a: Option<PackageSpecifier>, b: Option<PackageSpecifier>) -> bool {
    match (a, b) {
        (None, None) => true,
        (Some(x), Some(y)) => x.operator == y.operator && crate::version::version_exact_eq(
            x.version,
            y.version,
        ),
        _ => false,
    }
}

/// Whether two optional specifiers agree, per `spec_specifier_eq`.
pub(crate) fn specifier_eq(a: &Option<PackageSpecifier>, b: &Option<PackageSpecifier>) -> (r: bool)
    ensures
        r == spec_specifier_eq(*a, *b),
{
    match (a, b) {
        (None, None) => true,
        (Some(x), Some(y)) => x.operator == y.operator && x.version.eq_exact(&y.version),
        _ => false,
    }
}

/// Package identity: canonical name, specifier and platform tags; the
/// declared spelling, metadata and dist-info never take part.
pub open spec fn spec_pkg_eq(a: Package, b: Package) -> bool {
    &&& a.canonical_name@ == b.canonical_name@
    &&& spec_specifier_eq(a.specifier, b.specifier)
    &&& tags_view(a) == tags_view(b)
}

/// Element-wise equality of platform tag vectors.
fn tags_eq(a: &Vec<PlatformTag>, b: &Vec<PlatformTag>) -> (r: bool)
    ensures
        r == (a@.map_values(|t: PlatformTag| t.value@) == b@.map_values(|t: PlatformTag| t.value@)),
{
    let ghost av = a@.map_values(|t: PlatformTag| t.value@);
    let ghost bv = b@.map_values(|t: PlatformTag| t.value@);
    let alen = a.len();
    if alen != b.len() {
        proof {
            assert(av.len() != bv.len());
        }
        return false;
    }
    let mut i: usize = 0;
    while i < alen
        invariant
            i <= alen,
            alen == a@.len(),
            alen == b@.len(),
            av == a@.map_values(|t: PlatformTag| t.value@),
            bv == b@.map_values(|t: PlatformTag| t.value@),
            forall|j: int| 0 <= j < i ==> av[j] == bv[j],
        decreases alen - i,
    {
        if !vec_tag_value_eq(a, b, i) {
            proof {
                assert(av[i as int] != bv[i as int]);
            }
            return false;
        }
        i = i + 1;
    }
    proof {
        assert(av =~= bv);
    }
    true
}

/// Whether the tag values at one index agree.
fn vec_tag_value_eq(a: &Vec<PlatformTag>, b: &Vec<PlatformTag>, i: usize) -> (r: bool)
    requires
        i < a@.len(),
        i < b@.len(),
    ensures
        r == (a@.map_values(|t: PlatformTag| t.value@)[i as int] == b@.map_values(
            |t: PlatformTag| t.value@,
        )[i as int]),
{
    let ta = &a[i];
    let tb = &b[i];
    let r = ta.value == tb.value;
    proof {
        assert(a@.map_values(|t: PlatformTag| t.value@)[i as int] == a@[i as int].value@);
        assert(b@.map_values(|t: PlatformTag| t.value@)[i as int] == b@[i as int].value@);
    }
    r
}

impl PartialEq for Package {
    /// Equality over canonical name, specifier and platform tags.
    fn eq(&self, other: &Package) -> (r: bool) {
        if !(self.canonical_name == other.canonical_name) {
            return false;
        }
        if !specifier_eq(&self.specifier, &other.specifier) {
            return false;
        }
        tags_eq(&self.platform_tags, &other.platform_tags)
    }
}

impl vstd::std_specs::cmp::PartialEqSpecImpl for Package {
    open spec fn obeys_eq_spec() -> bool {
        true
    }

    open spec fn eq_spec(&self, other: &Package) -> bool {
        spec_pkg_eq(*self, *other)
    }
}

impl Eq for Package {

}

/// A faithful copy: every field agrees at the ghost level.
pub open spec fn pkg_like(a: Package, b: Package) -> bool {
    &&& b.name == a.name
    &&& b.canonical_name == a.canonical_name
    &&& spec_specifier_eq(a.specifier, b.specifier)
    &&& b.platform_tags@ == a.platform_tags@
    &&& b.distribution_info == a.distribution_info
}

/// Element-for-element faithful copies.
pub open spec fn pkgs_like(a: Seq<Package>, b: Seq<Package>) -> bool {
    a.len() == b.len() && forall|i: int| 0 <= i < a.len() ==> pkg_like(#[trigger] a[i], b[i])
}

/// Copy a vector of packages.
pub(crate) fn clone_pkgs(v: &Vec<Package>) -> (r: Vec<Package>)
    ensures
        pkgs_like(v@, r@),
        forall|i: int|
            0 <= i < v@.len() && wf_package(#[trigger] v@[i]) ==> wf_package(#[trigger] r@[i]),
{
    let n = v.len();
    let mut out: Vec<Package> = Vec::new();
    let mut i: usize = 0;
    while i < n
        invariant
            i <= n,
            n == v@.len(),
            out@.len() == i,
            forall|j: int| 0 <= j < i ==> pkg_like(#[trigger] v@[j], out@[j]),
            forall|j: int|
                0 <= j < i && wf_package(#[trigger] v@[j]) ==> wf_package(#[trigger] out@[j]),
        decreases n - i,
    {
        out.push(v[i].clone());
        i = i + 1;
    }
    out
}

/// Copy a vector of `Copy` elements.
pub(crate) fn copy_vec<T: Copy>(v: &Vec<T>) -> (r: Vec<T>)
    ensures
        r@ == v@,
{
    let n = v.len();
    let mut out: Vec<T> = Vec::new();
    let mut i: usize = 0;
    while i < n
        invariant
            i <= n,
            n == v@.len(),
            out@ == v@.subrange(0, i as int),
        decreases n - i,
    {
        out.push(v[i]);
        proof {
            assert(out@ =~= v@.subrange(0, i as int + 1));
        }
        i = i + 1;
    }
    proof {
        assert(v@.subrange(0, n as int) =~= v@);
    }
    out
}

impl Clone for PlatformTag {
    fn clone(&self) -> (r: Self)
        ensures
            r == *self,
    {
        PlatformTag { value: self.value.clone() }
    }
}

impl Clone for DistInfo {
    fn clone(&self) -> (r: Self)
        ensures
            r == *self,
    {
        DistInfo {
            installer_file: self.installer_file.clone(),
            metadata_file: self.metadata_file.clone(),
            record_file: self.record_file.clone(),
            license_file: match &self.license_file {
                Some(f) => Some(f.clone()),
                None => None,
            },
            requested_file: match &self.requested_file {
                Some(f) => Some(f.clone()),
                None => None,
            },
            wheel_file: match &self.wheel_file {
                Some(f) => Some(f.clone()),
                None => None,
            },
        }
    }
}

impl Clone for Version {
    fn clone(&self) -> (r: Self)
        ensures
            crate::version::version_exact_eq(*self, r),
            wf_version(*self) ==> wf_version(r),
    {
        Version {
            release: copy_vec(&self.release),
            pre: self.pre,
            post: self.post,
            dev: self.dev,
            local: match &self.local {
                Some(l) => Some(copy_vec(l)),
                None => None,
            },
        }
    }
}

impl Clone for PackageSpecifier {
    fn clone(&self) -> (r: Self)
        ensures
            r.operator == self.operator,
            crate::version::version_exact_eq(self.version, r.version),
            wf_version(self.version) ==> wf_version(r.version),
    {
        PackageSpecifier { operator: self.operator, version: self.version.clone() }
    }
}

/// Copy a vector of platform tags.
fn clone_tags(v: &Vec<PlatformTag>) -> (r: Vec<PlatformTag>)
    ensures
        r@ == v@,
{
    let n = v.len();
    let mut out: Vec<PlatformTag> = Vec::new();
    let mut i: usize = 0;
    while i < n
        invariant
            i <= n,
            n == v@.len(),
            out@ == v@.subrange(0, i as int),
        decreases n - i,
    {
        let t = &v[i];
        out.push(t.clone());
        proof {
            assert(out@ =~= v@.subrange(0, i as int + 1));
        }
        i = i + 1;
    }
    proof {
        assert(v@.subrange(0, n as int) =~= v@);
    }
    out
}

impl Clone for Package {
    fn clone(&self) -> (r: Self)
        ensures
            pkg_like(*self, r),
            wf_package(*self) ==> wf_package(r),
            spec_pkg_eq(*self, r),
    {
        let r = Package {
            name: self.name.clone(),
            canonical_name: self.canonical_name.clone(),
            core_metadata: PackageMetadata,
            specifier: match &self.specifier {
                Some(sp) => Some(sp.clone()),
                None => None,
            },
            platform_tags: clone_tags(&self.platform_tags),
            distribution_info: match &self.distribution_info {
                Some(d) => Some(d.clone()),
                None => None,
            },
        };
        proof {
            assert(tags_view(r) =~= tags_view(*self));
        }
        r
    }
}

impl core::str::FromStr for Package {
    type Err = HuakError;

    fn from_str(s: &str) -> Result<Package, HuakError> {
        Package::parse(s)
    }
}

} // verus!

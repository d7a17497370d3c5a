//! The virtual environment model: a configuration file beside the
//! environment root, derived paths computed once from the root, and the
//! install/uninstall/lookup operations against the environment's package
//! directory. The on-disk side (creating directories, running the
//! installer) belongs to the caller; this model is what those effects must
//! agree with.

use vstd::prelude::*;
use vstd::string::StringExecFns;
use vstd::string::StringSliceAdditionalSpecFns;
use vstd::string::StrSliceExecFns;

use crate::error::HuakError;
use crate::package::pkg_like;
use crate::package::pkgs_like;
use crate::package::wf_package;
use crate::package::DistInfo;
use crate::package::Package;
use crate::resolver::has_canon;
use crate::resolver::unique_canon;
use crate::resolver::upsert;
use crate::version::ascii_view;
use crate::version::version_bytes;
use crate::version::version_grammar;
use crate::version::wf_version;
use crate::version::Version;
use vstd::pervasive::VecAdditionalExecFns;

verus! {

// ---------------------------------------------------------------------------
// The environment configuration file
// ---------------------------------------------------------------------------

/// The configuration recorded beside an environment root: the interpreter
/// installation it was created from, the isolation flag, and the
/// interpreter version. Modeled after the `pyvenv.cfg` key-value file.
#[derive(Debug)]
pub struct VirtualEnvironmentConfig {
    pub home: String,
    pub include_system_site_packages: bool,
    pub version: Option<Version>,
}

pub open spec fn wf_config(c: VirtualEnvironmentConfig) -> bool {
    match c.version {
        None => true,
        Some(v) => wf_version(v),
    }
}

/// A config whose rendering parses back: its home path holds no newline.
pub open spec fn clean_config(c: VirtualEnvironmentConfig) -> bool {
    wf_config(c) && forall|i: int| 0 <= i < c.home@.len() ==> c.home@[i] != '\n'
}

pub open spec fn flag_chars(b: bool) -> Seq<char> {
    if b {
        "true"@
    } else {
        "false"@
    }
}

/// The configuration file's exact text.
pub open spec fn config_chars(c: VirtualEnvironmentConfig) -> Seq<char> {
    "home = "@ + c.home@ + "\n"@ + "include-system-site-packages = "@ + flag_chars(
        c.include_system_site_packages,
    ) + "\n"@ + (match c.version {
        None => Seq::<char>::empty(),
        Some(v) => "version = "@ + ascii_view(version_bytes(v)) + "\n"@,
    })
}

/// First index at or after `i` holding a newline (or the end of `s`).
pub open spec fn nl_end(s: Seq<char>, i: int) -> int
    decreases s.len() - i when 0 <= i <= s.len()
{
    if i < s.len() && s[i] != '\n' {
        nl_end(s, i + 1)
    } else {
        i
    }
}

pub proof fn lemma_nl_end_bounds(s: Seq<char>, i: int)
    requires
        0 <= i <= s.len(),
    ensures
        i <= nl_end(s, i) <= s.len(),
        forall|k: int| i <= k < nl_end(s, i) ==> s[k] != '\n',
        nl_end(s, i) < s.len() ==> s[nl_end(s, i)] == '\n',
    decreases s.len() - i,
{
    if i < s.len() && s[i] != '\n' {
        lemma_nl_end_bounds(s, i + 1);
    }
}

/// The version line's shape at `q`: nothing, or `version = X\n` closing the
/// file, where `X` is a canonical version.
pub open spec fn version_tail_grammar(s: Seq<char>, q: int) -> bool {
    ||| q == s.len()
    ||| (q + 10 <= s.len() && s.subrange(q, q + 10) == "version = "@ && s[s.len() - 1] == '\n'
        && s.len() - 1 >= q + 10 && version_grammar(
        vstd::utf8::encode_utf8(s.subrange(q + 10, s.len() - 1)),
    ))
}

/// The texts the configuration parser accepts: a `home` line, an isolation
/// flag line, and an optional closing `version` line.
pub open spec fn config_grammar(s: Seq<char>) -> bool {
    let h = nl_end(s, 7);
    &&& s.len() >= 7
    &&& s.subrange(0, 7) == "home = "@
    &&& h < s.len()
    &&& ({
        let p = h + 1;
        ||| (p + 36 <= s.len() && s.subrange(p, p + 36) == "include-system-site-packages = true\n"@
            && version_tail_grammar(s, p + 36))
        ||| (p + 37 <= s.len() && s.subrange(p, p + 37)
            == "include-system-site-packages = false\n"@ && version_tail_grammar(s, p + 37))
    })
}

/// Whether `s` carries `lit` starting at `at`.
pub(crate) fn starts_with_at(text: &str, at: usize, lit: &str) -> (r: bool)
    requires
        at <= text@.len(),
    ensures
        r == (at + lit@.len() <= text@.len() && text@.subrange(
            at as int,
            at as int + lit@.len() as int,
        ) == lit@),
{
    let tlen = text.unicode_len();
    let llen = lit.unicode_len();
    if tlen - at < llen {
        return false;
    }
    let mut i: usize = 0;
    while i < llen
        invariant
            i <= llen,
            at + llen <= tlen,
            tlen == text@.len(),
            llen == lit@.len(),
            forall|j: int| 0 <= j < i ==> text@[at + j] == lit@[j],
        decreases llen - i,
    {
        if text.get_char(at + i) != lit.get_char(i) {
            proof {
                assert(text@[at as int + i as int] != lit@[i as int]);
                if text@.subrange(at as int, at as int + lit@.len() as int) == lit@ {
                    assert(text@.subrange(at as int, at as int + lit@.len() as int)[i as int]
                        == lit@[i as int]);
                }
            }
            return false;
        }
        i = i + 1;
    }
    proof {
        assert(text@.subrange(at as int, at as int + lit@.len() as int) =~= lit@);
    }
    true
}

impl Default for VirtualEnvironmentConfig {
    /// An unconfigured environment: no home, isolated, no version.
    fn default() -> (r: Self)
        ensures
            r.home@ == Seq::<char>::empty(),
            !r.include_system_site_packages,
            r.version is None,
    {
        VirtualEnvironmentConfig {
            home: String::new(),
            include_system_site_packages: false,
            version: None,
        }
    }
}

impl VirtualEnvironmentConfig {
    /// Render the configuration file's text; `from_config_str` reads it
    /// back (the file is re-derivable byte for byte from the parsed value).
    pub fn to_config_string(&self) -> (r: String)
        requires
            wf_config(*self),
        ensures
            r@ == config_chars(*self),
    {
        let mut out = String::new();
        out.append("home = ");
        out.append(self.home.as_str());
        out.append("\n");
        out.append("include-system-site-packages = ");
        if self.include_system_site_packages {
            out.append("true");
        } else {
            out.append("false");
        }
        out.append("\n");
        match &self.version {
            Some(v) => {
                out.append("version = ");
                let vs = v.version_str();
                out.append(vs.as_str());
                out.append("\n");
            },
            None => {},
        }
        proof {
            assert(out@ =~= config_chars(*self));
        }
        out
    }

    /// Parse a configuration file's text. Succeeds exactly on the texts of
    /// `config_grammar`, and the parsed value renders back to the text.
    pub fn from_config_str(text: &str) -> (r: Result<VirtualEnvironmentConfig, HuakError>)
        ensures
            r is Ok <==> config_grammar(text@),
            r matches Ok(c) ==> {
                &&& wf_config(c)
                &&& clean_config(c)
                &&& config_chars(c) == text@
            },
            r matches Err(e) ==> e matches HuakError::NotAVirtualEnvironmentError { root } && root@
                == text@,
    {
        match Self::parse_config(text) {
            Some(c) => Ok(c),
            None => Err(HuakError::NotAVirtualEnvironmentError { root: text.to_owned() }),
        }
    }

    #[verifier::rlimit(60)]
    fn parse_config(text: &str) -> (r: Option<VirtualEnvironmentConfig>)
        ensures
            r is Some <==> config_grammar(text@),
            r matches Some(c) ==> {
                &&& wf_config(c)
                &&& clean_config(c)
                &&& config_chars(c) == text@
            },
    {
        let ghost s = text@;
        let len = text.unicode_len();
        if len < 7 {
            return None;
        }
        if !starts_with_at(text, 0, "home = ") {
            return None;
        }
        let mut h: usize = 7;
        while h < len && text.get_char(h) != '\n'
            invariant
                7 <= h <= len,
                len == s.len(),
                s == text@,
                nl_end(s, 7) == nl_end(s, h as int),
            decreases len - h,
        {
            h = h + 1;
        }
        assert(nl_end(s, 7) == h as int);
        if h == len {
            return None;
        }
        let home = text.substring_char(7, h).to_owned();
        proof {
            lemma_nl_end_bounds(s, 7);
        }
        proof {
            reveal_strlit("home = ");
            reveal_strlit("\n");
            reveal_strlit("include-system-site-packages = true\n");
            reveal_strlit("include-system-site-packages = false\n");
            reveal_strlit("version = ");
        }
        let p = h + 1;
        let (syst, q) = if starts_with_at(text, p, "include-system-site-packages = true\n") {
            (true, p + 36)
        } else if starts_with_at(text, p, "include-system-site-packages = false\n") {
            (false, p + 37)
        } else {
            return None;
        };
        proof {
            lemma_flag_line_split(syst);
            assert(s.subrange(h as int, p as int) =~= "\n"@);
            assert(config_grammar(s) <==> version_tail_grammar(s, q as int)) by {
                if config_grammar(s) {
                    if syst {
                        if p + 37 <= s.len() && s.subrange(p as int, p as int + 37)
                            == "include-system-site-packages = false\n"@ {
                            assert(s.subrange(p as int, p as int + 36)[31] == s[p as int + 31]);
                            assert(s.subrange(p as int, p as int + 37)[31] == s[p as int + 31]);
                            assert(false);
                        }
                    } else {
                        if p + 36 <= s.len() && s.subrange(p as int, p as int + 36)
                            == "include-system-site-packages = true\n"@ {
                            assert(s.subrange(p as int, p as int + 36)[31] == s[p as int + 31]);
                            assert(s.subrange(p as int, p as int + 37)[31] == s[p as int + 31]);
                            assert(false);
                        }
                    }
                }
            }
        }
        if q == len {
            let c = VirtualEnvironmentConfig {
                home,
                include_system_site_packages: syst,
                version: None,
            };
            proof {
                assert(config_chars(c) =~= s.subrange(0, 7) + s.subrange(7, h as int) + s.subrange(
                    h as int,
                    p as int,
                ) + s.subrange(p as int, q as int));
                assert(s =~= s.subrange(0, 7) + s.subrange(7, h as int) + s.subrange(
                    h as int,
                    p as int,
                ) + s.subrange(p as int, q as int));
            }
            return Some(c);
        }
        if !starts_with_at(text, q, "version = ") {
            return None;
        }
        if text.get_char(len - 1) != '\n' {
            proof {
                if version_tail_grammar(s, q as int) {
                    assert(s[s.len() - 1] == '\n');
                }
            }
            return None;
        }
        if len - 1 < q + 10 {
            proof {
                if version_tail_grammar(s, q as int) {
                    assert(s.len() - 1 >= q + 10);
                }
            }
            return None;
        }
        let vsub = text.substring_char(q + 10, len - 1);
        let version = match Version::parse(vsub) {
            Ok(v) => v,
            Err(_) => {
                return None;
            },
        };
        let c = VirtualEnvironmentConfig {
            home,
            include_system_site_packages: syst,
            version: Some(version),
        };
        proof {
            crate::version::lemma_version_grammar_ascii(vsub.spec_bytes());
            crate::package::lemma_ascii_str(vsub);
            assert(ascii_view(version_bytes(version)) == vsub@);
            assert(s.subrange(s.len() - 1, s.len() as int) =~= "\n"@);
            assert(s.subrange(q as int, s.len() as int) =~= s.subrange(q as int, q as int + 10)
                + s.subrange(q as int + 10, s.len() - 1) + s.subrange(s.len() - 1, s.len() as int));
            assert(config_chars(c) =~= s.subrange(0, 7) + s.subrange(7, h as int) + s.subrange(
                h as int,
                p as int,
            ) + s.subrange(p as int, q as int) + s.subrange(q as int, s.len() as int));
            assert(s =~= s.subrange(0, 7) + s.subrange(7, h as int) + s.subrange(h as int, p as int)
                + s.subrange(p as int, q as int) + s.subrange(q as int, s.len() as int));
        }
        Some(c)
    }
}

// ---------------------------------------------------------------------------
// The virtual environment
// ---------------------------------------------------------------------------

/// A virtual environment: its root, its configuration, and an in-memory
/// model of the packages its site-packages directory holds (and, for a
/// non-isolated environment, of the base system's site-packages). Derived
/// paths are computed from the root alone and never independently mutated.
#[derive(Debug)]
pub struct VirtualEnvironment {
    pub root: String,
    pub config: VirtualEnvironmentConfig,
    pub site_packages: Vec<Package>,
    pub base_site_packages: Vec<Package>,
}

/// Well-formedness: the configuration's version is well-formed and each
/// package directory holds at most one package per canonical name, every
/// package well-formed.
pub open spec fn wf_venv(e: VirtualEnvironment) -> bool {
    &&& wf_config(e.config)
    &&& unique_canon(e.site_packages@)
    &&& forall|i: int| 0 <= i < e.site_packages@.len() ==> wf_package(#[trigger] e.site_packages@[i])
    &&& unique_canon(e.base_site_packages@)
    &&& forall|i: int|
        0 <= i < e.base_site_packages@.len() ==> wf_package(#[trigger] e.base_site_packages@[i])
}

/// The `X.Y` spelling of an interpreter version (or `X` when it has a
/// single release segment).
pub open spec fn py_ver_chars(v: Version) -> Seq<char> {
    if v.release@.len() >= 2 {
        ascii_view(
            crate::version::dec_bytes(v.release@[0] as nat) + seq![46u8]
                + crate::version::dec_bytes(v.release@[1] as nat),
        )
    } else {
        ascii_view(crate::version::dec_bytes(v.release@[0] as nat))
    }
}

/// The environment's interpreter binary.
pub open spec fn python_path_chars(e: VirtualEnvironment) -> Seq<char> {
    e.root@ + "/bin/python"@
}

/// The environment's executables directory.
pub open spec fn exec_dir_chars(e: VirtualEnvironment) -> Seq<char> {
    e.root@ + "/bin"@
}

/// The environment's site-packages directory.
pub open spec fn site_packages_chars(e: VirtualEnvironment) -> Seq<char> {
    match e.config.version {
        Some(v) => e.root@ + "/lib/python"@ + py_ver_chars(v) + "/site-packages"@,
        None => e.root@ + "/lib/site-packages"@,
    }
}

/// The base interpreter installation's executables directory: the `home`
/// recorded at creation, which is the directory holding the interpreter.
pub open spec fn base_exec_dir_chars(e: VirtualEnvironment) -> Seq<char> {
    e.config.home@
}

/// The base interpreter binary under `home`.
pub open spec fn base_python_path_chars(e: VirtualEnvironment) -> Seq<char> {
    match e.config.version {
        Some(v) => e.config.home@ + "/python"@ + py_ver_chars(v),
        None => e.config.home@ + "/python"@,
    }
}

/// The base installation's site-packages directory, resolved under `home`.
pub open spec fn base_site_packages_chars(e: VirtualEnvironment) -> Seq<char> {
    match e.config.version {
        Some(v) => e.config.home@ + "/lib/python"@ + py_ver_chars(v) + "/site-packages"@,
        None => e.config.home@ + "/lib/site-packages"@,
    }
}

/// The `X.Y` string of a version.
fn py_ver_string(v: &Version) -> (r: String)
    requires
        wf_version(*v),
    ensures
        r@ == py_ver_chars(*v),
{
    let mut out: Vec<u8> = Vec::new();
    crate::version::push_dec(&mut out, v.release[0]);
    if v.release.len() >= 2 {
        out.push(46);
        crate::version::push_dec(&mut out, v.release[1]);
        proof {
            assert(out@ =~= crate::version::dec_bytes(v.release@[0] as nat) + seq![46u8]
                + crate::version::dec_bytes(v.release@[1] as nat));
        }
    }
    proof {
        crate::version::lemma_dec_bytes_ascii(v.release@[0] as nat);
        if v.release@.len() >= 2 {
            crate::version::lemma_dec_bytes_ascii(v.release@[1] as nat);
        }
        assert(crate::version::ascii_bytes(out@));
    }
    crate::version::ascii_to_string(out)
}

/// The isolation flag line is its prefix, the flag word and a newline.
proof fn lemma_flag_line_split(b: bool)
    ensures
        b ==> "include-system-site-packages = true\n"@ == "include-system-site-packages = "@
            + flag_chars(b) + "\n"@,
        !b ==> "include-system-site-packages = false\n"@ == "include-system-site-packages = "@
            + flag_chars(b) + "\n"@,
{
    reveal_strlit("include-system-site-packages = true\n");
    reveal_strlit("include-system-site-packages = false\n");
    reveal_strlit("include-system-site-packages = ");
    reveal_strlit("true");
    reveal_strlit("false");
    reveal_strlit("\n");
    if b {
        assert("include-system-site-packages = true\n"@ =~= "include-system-site-packages = "@
            + "true"@ + "\n"@);
    } else {
        assert("include-system-site-packages = false\n"@ =~= "include-system-site-packages = "@
            + "false"@ + "\n"@);
    }
}


// ---------------------------------------------------------------------------
// Package directory helpers
// ---------------------------------------------------------------------------

/// Replace the entry with `stored`'s canonical name, or append it.
fn upsert_pkg(v: &mut Vec<Package>, stored: Package)
    requires
        unique_canon(old(v)@),
    ensures
        final(v)@ == upsert(old(v)@, stored),
{
    let ghost target = stored.canonical_name@;
    let n = v.len();
    let mut k: usize = 0;
    let mut idx: Option<usize> = None;
    while k < n
        invariant
            k <= n,
            n == v@.len(),
            v@ == old(v)@,
            match idx {
                Some(f) => f < k && v@[f as int].canonical_name@ == target,
                None => forall|q: int| 0 <= q < k ==> #[trigger] v@[q].canonical_name@ != target,
            },
            target == stored.canonical_name@,
        decreases n - k,
    {
        let advance = match idx {
            Some(_) => true,
            None => {
                if v[k].canonical_name == stored.canonical_name {
                    idx = Some(k);
                }
                true
            },
        };
        if advance {
            k = k + 1;
        }
    }
    match idx {
        Some(f) => {
            v.set(f, stored);
            proof {
                assert(old(v)@[f as int].canonical_name@ == target);
                assert(has_canon(old(v)@, target));
                assert forall|i: int| 0 <= i < v@.len() implies v@[i] == upsert(
                    old(v)@,
                    v@[f as int],
                )[i] by {
                    if i != f {
                        if i < f {
                            assert(old(v)@[i].canonical_name@ != old(v)@[f as int].canonical_name@);
                        } else {
                            assert(old(v)@[f as int].canonical_name@ != old(v)@[i].canonical_name@);
                        }
                    }
                }
                assert(v@ =~= upsert(old(v)@, v@[f as int]));
            }
        },
        None => {
            v.push(stored);
            proof {
                assert(!has_canon(old(v)@, target));
            }
        },
    }
}

/// Remove the entry carrying this canonical name, if any.
fn remove_canon(v: &mut Vec<Package>, canon: &String) -> (found: bool)
    requires
        unique_canon(old(v)@),
    ensures
        found <==> has_canon(old(v)@, canon@),
        !found ==> final(v)@ == old(v)@,
        found ==> exists|k: int|
            {
                &&& 0 <= k < old(v)@.len()
                &&& #[trigger] old(v)@[k].canonical_name@ == canon@
                &&& final(v)@ == old(v)@.remove(k)
            },
{
    let n = v.len();
    let mut k: usize = 0;
    while k < n
        invariant
            k <= n,
            n == v@.len(),
            v@ == old(v)@,
            forall|q: int| 0 <= q < k ==> #[trigger] v@[q].canonical_name@ != canon@,
        decreases n - k,
    {
        if v[k].canonical_name == *canon {
            v.remove(k);
            proof {
                assert(old(v)@[k as int].canonical_name@ == canon@);
            }
            return true;
        }
        k = k + 1;
    }
    false
}

/// The package carrying this canonical name, as a copy.
fn lookup_clone(v: &Vec<Package>, canon: &String) -> (r: Option<Package>)
    ensures
        r is Some <==> has_canon(v@, canon@),
        r matches Some(p) ==> exists|k: int|
            {
                &&& 0 <= k < v@.len()
                &&& #[trigger] v@[k].canonical_name@ == canon@
                &&& pkg_like(v@[k], p)
                &&& (wf_package(v@[k]) ==> wf_package(p))
            },
{
    let n = v.len();
    let mut k: usize = 0;
    while k < n
        invariant
            k <= n,
            n == v@.len(),
            forall|q: int| 0 <= q < k ==> #[trigger] v@[q].canonical_name@ != canon@,
        decreases n - k,
    {
        if v[k].canonical_name == *canon {
            return Some(v[k].clone());
        }
        k = k + 1;
    }
    None
}

/// The dist-info of the package carrying this canonical name, if present.
fn lookup_dist(v: &Vec<Package>, canon: &String) -> (r: Option<DistInfo>)
    requires
        unique_canon(v@),
    ensures
        r is Some <==> exists|k: int|
            0 <= k < v@.len() && #[trigger] v@[k].canonical_name@ == canon@
                && v@[k].distribution_info is Some,
        r matches Some(d) ==> exists|k: int|
            0 <= k < v@.len() && #[trigger] v@[k].canonical_name@ == canon@
                && v@[k].distribution_info == Some(d),
{
    let n = v.len();
    let mut k: usize = 0;
    while k < n
        invariant
            k <= n,
            n == v@.len(),
            unique_canon(v@),
            forall|q: int| 0 <= q < k ==> #[trigger] v@[q].canonical_name@ != canon@,
        decreases n - k,
    {
        if v[k].canonical_name == *canon {
            return match &v[k].distribution_info {
                Some(d) => {
                    let r = d.clone();
                    proof {
                        assert(v@[k as int].distribution_info == Some(r));
                    }
                    Some(r)
                },
                None => {
                    proof {
                        assert forall|q: int|
                            0 <= q < v@.len() && #[trigger] v@[q].canonical_name@ == canon@
                                implies !(v@[q].distribution_info is Some) by {
                            if q < k {
                            } else if q > k {
                                assert(v@[k as int].canonical_name@ != v@[q].canonical_name@);
                            }
                        }
                    }
                    None
                },
            };
        }
        k = k + 1;
    }
    None
}

/// The canonical form of a looked-up name.
pub open spec fn lookup_chars(n: Seq<char>) -> Seq<char> {
    ascii_view(crate::package::canon_bytes(crate::package::str_bytes(n)))
}

/// The canonical key a name resolves to; ASCII names only.
fn lookup_key(name: &str) -> (r: Option<String>)
    ensures
        r is Some <==> vstd::utf8::is_ascii_chars(name@),
        r matches Some(c) ==> c@ == lookup_chars(name@),
{
    if !name.is_ascii() {
        return None;
    }
    Some(crate::package::canonicalize_name(name))
}

// ---------------------------------------------------------------------------
// Walking up the directory tree
// ---------------------------------------------------------------------------

/// Index where a path's file name starts: just past the last `/`.
pub open spec fn name_start_chars(s: Seq<char>) -> int
    decreases s.len(),
{
    if s.len() == 0 {
        0
    } else if s[s.len() - 1] == '/' {
        s.len() as int
    } else {
        name_start_chars(s.drop_last())
    }
}

pub proof fn lemma_name_start_chars_bounds(s: Seq<char>)
    ensures
        0 <= name_start_chars(s) <= s.len(),
    decreases s.len(),
{
    if s.len() > 0 && s[s.len() - 1] != '/' {
        lemma_name_start_chars_bounds(s.drop_last());
    }
}

pub proof fn lemma_name_start_chars_at(s: Seq<char>, i: int)
    requires
        0 <= i <= s.len(),
        forall|k: int| i <= k < s.len() ==> s[k] != '/',
        i > 0 ==> s[i - 1] == '/',
    ensures
        name_start_chars(s) == i,
    decreases s.len(),
{
    if s.len() == i {
        if i > 0 {
            assert(s[s.len() - 1] == '/');
        }
    } else {
        assert(s[s.len() - 1] != '/');
        assert(forall|k: int| i <= k < s.drop_last().len() ==> s.drop_last()[k] != '/');
        lemma_name_start_chars_at(s.drop_last(), i);
    }
}

/// The directory above `s`, or nothing at the filesystem root (or for a
/// bare relative name).
pub open spec fn parent_dir(s: Seq<char>) -> Option<Seq<char>> {
    let st = name_start_chars(s);
    if st == 0 {
        None
    } else if st == 1 {
        if s.len() > 1 {
            Some(seq!['/'])
        } else {
            None
        }
    } else {
        Some(s.subrange(0, st - 1))
    }
}

/// A directory followed by its ancestors, ending at the filesystem root.
pub open spec fn dir_chain(s: Seq<char>) -> Seq<Seq<char>>
    decreases s.len() via dir_chain_decreases
{
    seq![s] + (match parent_dir(s) {
        None => Seq::<Seq<char>>::empty(),
        Some(p) => dir_chain(p),
    })
}

#[via_fn]
proof fn dir_chain_decreases(s: Seq<char>) {
    lemma_name_start_chars_bounds(s);
}

/// Whether one of the directories is this path.
pub open spec fn in_dirs(dirs: Seq<String>, d: Seq<char>) -> bool {
    exists|i: int| 0 <= i < dirs.len() && #[trigger] dirs[i]@ == d
}

/// The directory above, as a fresh string.
fn parent_dir_exec(s: &str) -> (r: Option<String>)
    ensures
        match parent_dir(s@) {
            Some(p) => r matches Some(rp) && rp@ == p && rp@.len() < s@.len(),
            None => r is None,
        },
{
    let len = s.unicode_len();
    let mut st = len;
    while st > 0 && s.get_char(st - 1) != '/'
        invariant
            st <= len,
            len == s@.len(),
            forall|k: int| st <= k < len ==> s@[k] != '/',
        decreases st,
    {
        st = st - 1;
    }
    proof {
        lemma_name_start_chars_at(s@, st as int);
    }
    if st == 0 {
        None
    } else if st == 1 {
        if len > 1 {
            let r = "/".to_owned();
            proof {
                reveal_strlit("/");
                assert(r@ =~= seq!['/']);
            }
            Some(r)
        } else {
            None
        }
    } else {
        Some(s.substring_char(0, st - 1).to_owned())
    }
}

/// Whether the list holds this exact path.
fn contains_str(dirs: &Vec<String>, x: &String) -> (r: bool)
    ensures
        r == in_dirs(dirs@, x@),
{
    let n = dirs.len();
    let mut i: usize = 0;
    while i < n
        invariant
            i <= n,
            n == dirs@.len(),
            forall|q: int| 0 <= q < i ==> #[trigger] dirs@[q]@ != x@,
        decreases n - i,
    {
        if dirs[i] == *x {
            return true;
        }
        i = i + 1;
    }
    false
}

// ---------------------------------------------------------------------------
// Environment operations
// ---------------------------------------------------------------------------

/// What a package's dist-info looks like right after an explicit install:
/// the three required files plus the `REQUESTED` marker.
pub open spec fn installed_form(p: Package, q: Package) -> bool {
    &&& q.name == p.name
    &&& q.canonical_name == p.canonical_name
    &&& crate::package::spec_specifier_eq(p.specifier, q.specifier)
    &&& q.platform_tags@ == p.platform_tags@
    &&& match q.distribution_info {
        Some(d) => {
            &&& d.installer_file@ == "INSTALLER"@
            &&& d.metadata_file@ == "METADATA"@
            &&& d.record_file@ == "RECORD"@
            &&& d.license_file is None
            &&& (d.requested_file matches Some(rf) && rf@ == "REQUESTED"@)
            &&& d.wheel_file is None
        },
        None => false,
    }
}

/// The environment variable changes an activation asks the shell to make.
#[derive(Debug)]
pub struct ActivationPlan {
    /// The directory to put in front of the shell's search path.
    pub path_prepend: String,
    /// The value for the interpreter-selection variable.
    pub virtual_env: String,
}

impl Default for VirtualEnvironment {
    /// The default environment at `.venv`, not yet configured.
    fn default() -> (r: Self)
        ensures
            r.root@ == ".venv"@,
            r.site_packages@.len() == 0,
            r.base_site_packages@.len() == 0,
            wf_venv(r),
    {
        VirtualEnvironment::new()
    }
}

impl VirtualEnvironment {
    /// The default environment location, `.venv`, not yet configured.
    pub fn new() -> (r: VirtualEnvironment)
        ensures
            r.root@ == ".venv"@,
            r.config.home@ == Seq::<char>::empty(),
            !r.config.include_system_site_packages,
            r.config.version is None,
            r.site_packages@.len() == 0,
            r.base_site_packages@.len() == 0,
            wf_venv(r),
    {
        VirtualEnvironment {
            root: ".venv".to_owned(),
            config: VirtualEnvironmentConfig {
                home: String::new(),
                include_system_site_packages: false,
                version: None,
            },
            site_packages: Vec::new(),
            base_site_packages: Vec::new(),
        }
    }

    /// The absolute path to the environment's root directory.
    pub fn root(&self) -> (r: &String)
        ensures
            r@ == self.root@,
    {
        &self.root
    }

    /// Load an environment from its root and its configuration file's text;
    /// a directory whose configuration does not parse is not a virtual
    /// environment. The package model starts empty; the caller records what
    /// it finds on disk through `add_package_to_site_packages`.
    pub fn from_path(root: &str, config_text: &str) -> (r: Result<VirtualEnvironment, HuakError>)
        ensures
            r is Ok <==> config_grammar(config_text@),
            r matches Ok(e) ==> {
                &&& e.root@ == root@
                &&& config_chars(e.config) == config_text@
                &&& e.site_packages@.len() == 0
                &&& e.base_site_packages@.len() == 0
                &&& wf_venv(e)
            },
            r matches Err(e) ==> (e matches HuakError::NotAVirtualEnvironmentError { root: t }
                && t@ == config_text@),
    {
        let config = match VirtualEnvironmentConfig::from_config_str(config_text) {
            Ok(c) => c,
            Err(e) => {
                return Err(e);
            },
        };
        Ok(
            VirtualEnvironment {
                root: root.to_owned(),
                config,
                site_packages: Vec::new(),
                base_site_packages: Vec::new(),
            },
        )
    }

    /// Search the starting directory and then its ancestors for one that
    /// holds an environment configuration file; `dirs_with_config` lists
    /// the directories where the caller found one. Stops without success at
    /// the filesystem root.
    pub fn find(from: &str, dirs_with_config: &Vec<String>) -> (r: Result<String, HuakError>)
        ensures
            r is Ok <==> exists|k: int|
                0 <= k < dir_chain(from@).len() && in_dirs(
                    dirs_with_config@,
                    #[trigger] dir_chain(from@)[k],
                ),
            r matches Ok(root) ==> exists|k: int|
                {
                    &&& 0 <= k < dir_chain(from@).len()
                    &&& #[trigger] dir_chain(from@)[k] == root@
                    &&& in_dirs(dirs_with_config@, dir_chain(from@)[k])
                    &&& forall|k2: int|
                        0 <= k2 < k ==> !in_dirs(dirs_with_config@, #[trigger] dir_chain(from@)[k2])
                },
            r matches Err(e) ==> e == HuakError::PyVenvNotFoundError,
    {
        let ghost chain = dir_chain(from@);
        let mut cur = from.to_owned();
        let ghost mut kk: int = 0;
        loop
            invariant
                0 <= kk < chain.len(),
                chain[kk] == cur@,
                chain.skip(kk) == dir_chain(cur@),
                chain == dir_chain(from@),
                forall|k2: int| 0 <= k2 < kk ==> !in_dirs(dirs_with_config@, #[trigger] chain[k2]),
            decreases cur@.len(),
        {
            if contains_str(dirs_with_config, &cur) {
                proof {
                    assert(in_dirs(dirs_with_config@, chain[kk]));
                }
                return Ok(cur);
            }
            match parent_dir_exec(cur.as_str()) {
                Some(p) => {
                    proof {
                        assert(dir_chain(cur@) == seq![cur@] + dir_chain(p@));
                        assert(chain.skip(kk).skip(1) =~= chain.skip(kk + 1));
                        assert((seq![cur@] + dir_chain(p@)).skip(1) =~= dir_chain(p@));
                        assert(chain.skip(kk + 1) =~= dir_chain(p@));
                        assert(dir_chain(p@).len() >= 1);
                        assert(chain[kk + 1] == dir_chain(p@)[0]);
                        assert(dir_chain(p@)[0] == p@);
                        kk = kk + 1;
                    }
                    cur = p;
                },
                None => {
                    proof {
                        assert(dir_chain(cur@) =~= seq![cur@]);
                        assert(chain.len() == kk + 1);
                        assert forall|k: int|
                            0 <= k < chain.len() implies !in_dirs(
                            dirs_with_config@,
                            #[trigger] chain[k],
                        ) by {
                            if k == kk {
                                assert(chain[k] == cur@);
                            }
                        }
                    }
                    return Err(HuakError::PyVenvNotFoundError);
                },
            }
        }
    }

    /// Create the model of a fresh, isolated environment at `root` from the
    /// chosen interpreter: the interpreter's version is read from its file
    /// name, and `home` records the directory holding it. Fails exactly
    /// when the path names no interpreter. Materializing the layout on disk
    /// is the caller's work.
    pub fn create(python_path: &str, root: &str) -> (r: Result<VirtualEnvironment, HuakError>)
        ensures
            r is Ok <==> crate::interpreters::path_has_version(python_path@),
            r matches Ok(e) ==> {
                &&& e.root@ == root@
                &&& (match parent_dir(python_path@) {
                    Some(p) => e.config.home@ == p,
                    None => e.config.home@ == Seq::<char>::empty(),
                })
                &&& !e.config.include_system_site_packages
                &&& (e.config.version matches Some(v) && version_bytes(v)
                    == crate::interpreters::path_version_key(python_path@))
                &&& e.site_packages@.len() == 0
                &&& e.base_site_packages@.len() == 0
                &&& wf_venv(e)
            },
            r matches Err(e) ==> e == HuakError::InterpreterNotFoundError,
    {
        let version = match crate::interpreters::python_version_from_path(python_path) {
            Some(v) => v,
            None => {
                return Err(HuakError::InterpreterNotFoundError);
            },
        };
        let home = match parent_dir_exec(python_path) {
            Some(p) => p,
            None => String::new(),
        };
        Ok(
            VirtualEnvironment {
                root: root.to_owned(),
                config: VirtualEnvironmentConfig {
                    home,
                    include_system_site_packages: false,
                    version: Some(version),
                },
                site_packages: Vec::new(),
                base_site_packages: Vec::new(),
            },
        )
    }

    /// Whether the environment is cut off from the system site-packages.
    pub fn is_isolated(&self) -> (r: bool)
        ensures
            r == !self.config.include_system_site_packages,
    {
        !self.config.include_system_site_packages
    }

    /// The environment's interpreter version, when the configuration names
    /// one; it matches the interpreter at the environment's own path.
    pub fn python_version(&self) -> (r: Option<&Version>)
        ensures
            match self.config.version {
                Some(v) => r matches Some(rv) && *rv == v,
                None => r is None,
            },
    {
        self.config.version.as_ref()
    }

    /// The version of the interpreter the environment was created from; the
    /// configuration records one version for both.
    pub fn base_python_version(&self) -> (r: Option<&Version>)
        ensures
            match self.config.version {
                Some(v) => r matches Some(rv) && *rv == v,
                None => r is None,
            },
    {
        self.config.version.as_ref()
    }

    /// The absolute path of the environment's interpreter binary.
    pub fn python_path(&self) -> (r: String)
        ensures
            r@ == python_path_chars(*self),
    {
        let mut out = String::new();
        out.append(self.root.as_str());
        out.append("/bin/python");
        proof {
            assert(out@ =~= python_path_chars(*self));
        }
        out
    }

    /// The absolute path of the environment's executables directory.
    pub fn executables_dir_path(&self) -> (r: String)
        ensures
            r@ == exec_dir_chars(*self),
    {
        let mut out = String::new();
        out.append(self.root.as_str());
        out.append("/bin");
        proof {
            assert(out@ =~= exec_dir_chars(*self));
        }
        out
    }

    /// The absolute path of the environment's site-packages directory.
    pub fn site_packages_dir_path(&self) -> (r: String)
        requires
            wf_venv(*self),
        ensures
            r@ == site_packages_chars(*self),
    {
        let mut out = String::new();
        out.append(self.root.as_str());
        match &self.config.version {
            Some(v) => {
                out.append("/lib/python");
                let pv = py_ver_string(v);
                out.append(pv.as_str());
                out.append("/site-packages");
            },
            None => {
                out.append("/lib/site-packages");
            },
        }
        proof {
            assert(out@ =~= site_packages_chars(*self));
        }
        out
    }

    /// The base interpreter installation's executables directory.
    pub fn base_executables_dir_path(&self) -> (r: String)
        ensures
            r@ == base_exec_dir_chars(*self),
    {
        self.config.home.clone()
    }

    /// The absolute path of the interpreter the environment was created
    /// from.
    pub fn base_python_path(&self) -> (r: String)
        requires
            wf_venv(*self),
        ensures
            r@ == base_python_path_chars(*self),
    {
        let mut out = String::new();
        out.append(self.config.home.as_str());
        out.append("/python");
        match &self.config.version {
            Some(v) => {
                let pv = py_ver_string(v);
                out.append(pv.as_str());
            },
            None => {},
        }
        proof {
            assert(out@ =~= base_python_path_chars(*self));
        }
        out
    }

    /// The base installation's site-packages directory.
    pub fn base_site_packages_dir_path(&self) -> (r: String)
        requires
            wf_venv(*self),
        ensures
            r@ == base_site_packages_chars(*self),
    {
        let mut out = String::new();
        out.append(self.config.home.as_str());
        match &self.config.version {
            Some(v) => {
                out.append("/lib/python");
                let pv = py_ver_string(v);
                out.append(pv.as_str());
                out.append("/site-packages");
            },
            None => {
                out.append("/lib/site-packages");
            },
        }
        proof {
            assert(out@ =~= base_site_packages_chars(*self));
        }
        out
    }

    /// Record a freshly installed package: it replaces whatever the
    /// environment held under its canonical name (one version per name) and
    /// carries a synthesized dist-info with the `REQUESTED` marker. The
    /// installer process itself is the caller's work; on its success the
    /// caller commits the package here.
    pub fn install_package(&mut self, package: &Package) -> (r: Result<(), HuakError>)
        requires
            wf_venv(*old(self)),
            wf_package(*package),
        ensures
            r is Ok,
            exists|q: Package|
                {
                    &&& #[trigger] installed_form(*package, q)
                    &&& wf_package(q)
                    &&& final(self).site_packages@ == upsert(old(self).site_packages@, q)
                },
            final(self).root == old(self).root,
            final(self).config == old(self).config,
            final(self).base_site_packages == old(self).base_site_packages,
            wf_venv(*final(self)),
    {
        let mut stored = package.clone();
        stored.distribution_info = Some(
            DistInfo {
                installer_file: "INSTALLER".to_owned(),
                metadata_file: "METADATA".to_owned(),
                record_file: "RECORD".to_owned(),
                license_file: None,
                requested_file: Some("REQUESTED".to_owned()),
                wheel_file: None,
            },
        );
        proof {
            assert(installed_form(*package, stored));
            assert(wf_package(stored));
        }
        let ghost q = stored;
        upsert_pkg(&mut self.site_packages, stored);
        proof {
            lemma_upsert_wf(old(self).site_packages@, q);
        }
        Ok(())
    }

    /// Record an installed set, one commit per package, in order.
    pub fn install_packages(&mut self, packages: &Vec<Package>) -> (r: Result<(), HuakError>)
        requires
            wf_venv(*old(self)),
            forall|i: int| 0 <= i < packages@.len() ==> wf_package(#[trigger] packages@[i]),
        ensures
            r is Ok,
            final(self).root == old(self).root,
            final(self).config == old(self).config,
            final(self).base_site_packages == old(self).base_site_packages,
            wf_venv(*final(self)),
            forall|i: int|
                0 <= i < packages@.len() ==> has_canon(
                    final(self).site_packages@,
                    #[trigger] packages@[i].canonical_name@,
                ),
    {
        let n = packages.len();
        let mut i: usize = 0;
        while i < n
            invariant
                i <= n,
                n == packages@.len(),
                forall|k: int| 0 <= k < packages@.len() ==> wf_package(#[trigger] packages@[k]),
                wf_venv(*self),
                self.root == old(self).root,
                self.config == old(self).config,
                self.base_site_packages == old(self).base_site_packages,
                forall|k: int|
                    0 <= k < i ==> has_canon(
                        self.site_packages@,
                        #[trigger] packages@[k].canonical_name@,
                    ),
            decreases n - i,
        {
            let ghost pre = self.site_packages@;
            let res = self.install_package(&packages[i]);
            proof {
                let q = choose|q: Package|
                    {
                        &&& #[trigger] installed_form(packages@[i as int], q)
                        &&& wf_package(q)
                        &&& self.site_packages@ == upsert(pre, q)
                    };
                assert(q.canonical_name@ == packages@[i as int].canonical_name@);
                lemma_upsert_has(pre, q);
                assert forall|k: int|
                    0 <= k < i + 1 implies has_canon(
                    self.site_packages@,
                    #[trigger] packages@[k].canonical_name@,
                ) by {
                    if k < i {
                        let w = choose|w: int|
                            0 <= w < pre.len() && #[trigger] pre[w].canonical_name@
                                == packages@[k].canonical_name@;
                        lemma_upsert_keeps(pre, q, w);
                    }
                }
            }
            i = i + 1;
        }
        Ok(())
    }

    /// Remove the package installed under a name's canonical form; fails
    /// exactly when no such package is installed.
    pub fn uninstall_package(&mut self, package_name: &str) -> (r: Result<(), HuakError>)
        requires
            wf_venv(*old(self)),
        ensures
            r is Ok <==> vstd::utf8::is_ascii_chars(package_name@) && has_canon(
                old(self).site_packages@,
                lookup_chars(package_name@),
            ),
            r is Ok ==> exists|k: int|
                {
                    &&& 0 <= k < old(self).site_packages@.len()
                    &&& #[trigger] old(self).site_packages@[k].canonical_name@ == lookup_chars(
                        package_name@,
                    )
                    &&& final(self).site_packages@ == old(self).site_packages@.remove(k)
                },
            r matches Err(e) ==> (e matches HuakError::PackageNotFoundError { name } && name@
                == package_name@ && final(self).site_packages@ == old(self).site_packages@),
            final(self).root == old(self).root,
            final(self).config == old(self).config,
            final(self).base_site_packages == old(self).base_site_packages,
            wf_venv(*final(self)),
    {
        let key = match lookup_key(package_name) {
            Some(k) => k,
            None => {
                return Err(HuakError::PackageNotFoundError { name: package_name.to_owned() });
            },
        };
        let found = remove_canon(&mut self.site_packages, &key);
        if !found {
            return Err(HuakError::PackageNotFoundError { name: package_name.to_owned() });
        }
        proof {
            let k = choose|k: int|
                {
                    &&& 0 <= k < old(self).site_packages@.len()
                    &&& #[trigger] old(self).site_packages@[k].canonical_name@ == key@
                    &&& self.site_packages@ == old(self).site_packages@.remove(k)
                };
        }
        Ok(())
    }

    /// The installed package under a name's canonical form, if any;
    /// absence is not an error.
    pub fn find_site_packages_package(&self, name: &str) -> (r: Option<Package>)
        ensures
            r is Some <==> vstd::utf8::is_ascii_chars(name@) && has_canon(
                self.site_packages@,
                lookup_chars(name@),
            ),
            r matches Some(p) ==> exists|k: int|
                {
                    &&& 0 <= k < self.site_packages@.len()
                    &&& #[trigger] self.site_packages@[k].canonical_name@ == lookup_chars(name@)
                    &&& pkg_like(self.site_packages@[k], p)
                    &&& (wf_package(self.site_packages@[k]) ==> wf_package(p))
                },
    {
        let key = match lookup_key(name) {
            Some(k) => k,
            None => {
                return None;
            },
        };
        lookup_clone(&self.site_packages, &key)
    }

    /// The installed package's dist-info under a name's canonical form, if
    /// both the package and its dist-info are present.
    pub fn find_site_packages_dist_info(&self, name: &str) -> (r: Option<DistInfo>)
        requires
            wf_venv(*self),
        ensures
            r is Some <==> vstd::utf8::is_ascii_chars(name@) && exists|k: int|
                0 <= k < self.site_packages@.len()
                    && #[trigger] self.site_packages@[k].canonical_name@ == lookup_chars(name@)
                    && self.site_packages@[k].distribution_info is Some,
            r matches Some(d) ==> exists|k: int|
                0 <= k < self.site_packages@.len()
                    && #[trigger] self.site_packages@[k].canonical_name@ == lookup_chars(name@)
                    && self.site_packages@[k].distribution_info == Some(d),
    {
        let key = match lookup_key(name) {
            Some(k) => k,
            None => {
                return None;
            },
        };
        lookup_dist(&self.site_packages, &key)
    }

    /// The lookup of `find_site_packages_package` against the base system's
    /// directory; asking an isolated environment is a logic error and
    /// fails with an isolation violation rather than scanning the wrong
    /// directory.
    pub fn find_base_site_packages_package(&self, name: &str) -> (r: Result<
        Option<Package>,
        HuakError,
    >)
        ensures
            r is Err <==> !self.config.include_system_site_packages,
            r matches Err(e) ==> e == HuakError::IsolationViolationError,
            r matches Ok(o) ==> {
                &&& (o is Some <==> vstd::utf8::is_ascii_chars(name@) && has_canon(
                    self.base_site_packages@,
                    lookup_chars(name@),
                ))
                &&& (o matches Some(p) ==> exists|k: int|
                    {
                        &&& 0 <= k < self.base_site_packages@.len()
                        &&& #[trigger] self.base_site_packages@[k].canonical_name@ == lookup_chars(
                            name@,
                        )
                        &&& pkg_like(self.base_site_packages@[k], p)
                    })
            },
    {
        if self.is_isolated() {
            return Err(HuakError::IsolationViolationError);
        }
        let key = match lookup_key(name) {
            Some(k) => k,
            None => {
                return Ok(None);
            },
        };
        Ok(lookup_clone(&self.base_site_packages, &key))
    }

    /// The lookup of `find_site_packages_dist_info` against the base
    /// system's directory; fails with an isolation violation on an isolated
    /// environment.
    pub fn find_base_site_packages_dist_info(&self, name: &str) -> (r: Result<
        Option<DistInfo>,
        HuakError,
    >)
        requires
            wf_venv(*self),
        ensures
            r is Err <==> !self.config.include_system_site_packages,
            r matches Err(e) ==> e == HuakError::IsolationViolationError,
            r matches Ok(o) ==> {
                &&& (o is Some <==> vstd::utf8::is_ascii_chars(name@) && exists|k: int|
                    0 <= k < self.base_site_packages@.len()
                        && #[trigger] self.base_site_packages@[k].canonical_name@ == lookup_chars(
                        name@,
                    ) && self.base_site_packages@[k].distribution_info is Some)
                &&& (o matches Some(d) ==> exists|k: int|
                    0 <= k < self.base_site_packages@.len()
                        && #[trigger] self.base_site_packages@[k].canonical_name@ == lookup_chars(
                        name@,
                    ) && self.base_site_packages@[k].distribution_info == Some(d))
            },
    {
        if self.is_isolated() {
            return Err(HuakError::IsolationViolationError);
        }
        let key = match lookup_key(name) {
            Some(k) => k,
            None => {
                return Ok(None);
            },
        };
        Ok(lookup_dist(&self.base_site_packages, &key))
    }

    /// Record a package in the environment's site-packages directory as it
    /// stands, replacing the entry with its canonical name.
    pub fn add_package_to_site_packages(&mut self, package: &Package) -> (r: Result<(), HuakError>)
        requires
            wf_venv(*old(self)),
            wf_package(*package),
        ensures
            r is Ok,
            exists|q: Package|
                {
                    &&& #[trigger] pkg_like(*package, q)
                    &&& wf_package(q)
                    &&& final(self).site_packages@ == upsert(old(self).site_packages@, q)
                },
            final(self).root == old(self).root,
            final(self).config == old(self).config,
            final(self).base_site_packages == old(self).base_site_packages,
            wf_venv(*final(self)),
    {
        let stored = package.clone();
        let ghost q = stored;
        upsert_pkg(&mut self.site_packages, stored);
        proof {
            lemma_upsert_wf(old(self).site_packages@, q);
        }
        Ok(())
    }

    /// Record a package in the base system's directory; fails with an
    /// isolation violation on an isolated environment.
    pub fn add_package_to_base_site_packages(&mut self, package: &Package) -> (r: Result<
        (),
        HuakError,
    >)
        requires
            wf_venv(*old(self)),
            wf_package(*package),
        ensures
            r is Err <==> !old(self).config.include_system_site_packages,
            r matches Err(e) ==> e == HuakError::IsolationViolationError && *final(self) == *old(
                self,
            ),
            r is Ok ==> exists|q: Package|
                {
                    &&& #[trigger] pkg_like(*package, q)
                    &&& wf_package(q)
                    &&& final(self).base_site_packages@ == upsert(old(self).base_site_packages@, q)
                } && final(self).site_packages == old(self).site_packages,
            final(self).root == old(self).root,
            final(self).config == old(self).config,
            wf_venv(*final(self)),
    {
        if self.is_isolated() {
            return Err(HuakError::IsolationViolationError);
        }
        let stored = package.clone();
        let ghost q = stored;
        upsert_pkg(&mut self.base_site_packages, stored);
        proof {
            lemma_upsert_wf(old(self).base_site_packages@, q);
        }
        Ok(())
    }

    /// Remove a package from the environment's site-packages directory;
    /// fails exactly when nothing is installed under its canonical name.
    pub fn remove_package_from_site_packages(&mut self, package: &Package) -> (r: Result<
        (),
        HuakError,
    >)
        requires
            wf_venv(*old(self)),
        ensures
            r is Ok <==> has_canon(old(self).site_packages@, package.canonical_name@),
            r is Ok ==> exists|k: int|
                {
                    &&& 0 <= k < old(self).site_packages@.len()
                    &&& #[trigger] old(self).site_packages@[k].canonical_name@
                        == package.canonical_name@
                    &&& final(self).site_packages@ == old(self).site_packages@.remove(k)
                },
            r matches Err(e) ==> (e matches HuakError::PackageNotFoundError { name } && name@
                == package.name@ && final(self).site_packages@ == old(self).site_packages@),
            final(self).root == old(self).root,
            final(self).config == old(self).config,
            final(self).base_site_packages == old(self).base_site_packages,
            wf_venv(*final(self)),
    {
        let found = remove_canon(&mut self.site_packages, &package.canonical_name);
        if !found {
            return Err(HuakError::PackageNotFoundError { name: package.name.clone() });
        }
        proof {
            let k = choose|k: int|
                {
                    &&& 0 <= k < old(self).site_packages@.len()
                    &&& #[trigger] old(self).site_packages@[k].canonical_name@
                        == package.canonical_name@
                    &&& self.site_packages@ == old(self).site_packages@.remove(k)
                };
        }
        Ok(())
    }

    /// Remove a package from the base system's directory; fails with an
    /// isolation violation on an isolated environment, and with a
    /// not-found error when nothing is installed under the name.
    pub fn remove_package_from_base_site_packages(&mut self, package: &Package) -> (r: Result<
        (),
        HuakError,
    >)
        requires
            wf_venv(*old(self)),
        ensures
            !old(self).config.include_system_site_packages ==> (r matches Err(e) && e
                == HuakError::IsolationViolationError && *final(self) == *old(self)),
            old(self).config.include_system_site_packages ==> {
                &&& (r is Ok <==> has_canon(
                    old(self).base_site_packages@,
                    package.canonical_name@,
                ))
                &&& (r is Ok ==> exists|k: int|
                    {
                        &&& 0 <= k < old(self).base_site_packages@.len()
                        &&& #[trigger] old(self).base_site_packages@[k].canonical_name@
                            == package.canonical_name@
                        &&& final(self).base_site_packages@ == old(
                            self,
                        ).base_site_packages@.remove(k)
                    } && final(self).site_packages == old(self).site_packages)
            },
            final(self).root == old(self).root,
            final(self).config == old(self).config,
            wf_venv(*final(self)),
    {
        if self.is_isolated() {
            return Err(HuakError::IsolationViolationError);
        }
        let found = remove_canon(&mut self.base_site_packages, &package.canonical_name);
        if !found {
            return Err(HuakError::PackageNotFoundError { name: package.name.clone() });
        }
        proof {
            let k = choose|k: int|
                {
                    &&& 0 <= k < old(self).base_site_packages@.len()
                    &&& #[trigger] old(self).base_site_packages@[k].canonical_name@
                        == package.canonical_name@
                    &&& self.base_site_packages@ == old(self).base_site_packages@.remove(k)
                };
        }
        Ok(())
    }

    /// Every package installed in the environment, as copies; the baseline
    /// the resolver reconciles requests against.
    pub fn installed_packages(&self) -> (r: Result<Vec<Package>, HuakError>)
        ensures
            r matches Ok(out) ==> pkgs_like(self.site_packages@, out@) && (forall|i: int|
                0 <= i < self.site_packages@.len() && wf_package(#[trigger] self.site_packages@[i])
                    ==> wf_package(#[trigger] out@[i])),
            r is Ok,
    {
        Ok(crate::package::clone_pkgs(&self.site_packages))
    }

    /// The environment variable changes that activate the environment in a
    /// shell: its executables directory goes in front of the search path,
    /// and the interpreter-selection variable names the root. A deliberate,
    /// caller-visible effect on the parent shell; the environment itself
    /// does not change.
    pub fn activate(&self) -> (r: ActivationPlan)
        ensures
            r.path_prepend@ == exec_dir_chars(*self),
            r.virtual_env@ == self.root@,
    {
        ActivationPlan { path_prepend: self.executables_dir_path(), virtual_env: self.root.clone() }
    }

    /// The search-path value a terminal holding `path_var` gets when this
    /// environment is activated in it: the executables directory, the
    /// separator, then the old value.
    pub fn activate_with(&self, path_var: &str) -> (r: String)
        ensures
            r@ == exec_dir_chars(*self) + ":"@ + path_var@,
    {
        let mut out = self.executables_dir_path();
        out.append(":");
        out.append(path_var);
        out
    }
}

/// An upsert keeps well-formedness: names stay unique and packages stay
/// well-formed.
proof fn lemma_upsert_wf(acc: Seq<Package>, q: Package)
    requires
        unique_canon(acc),
        forall|i: int| 0 <= i < acc.len() ==> wf_package(#[trigger] acc[i]),
        wf_package(q),
    ensures
        unique_canon(upsert(acc, q)),
        forall|i: int| 0 <= i < upsert(acc, q).len() ==> wf_package(#[trigger] upsert(acc, q)[i]),
        has_canon(upsert(acc, q), q.canonical_name@),
{
    let r = upsert(acc, q);
    if has_canon(acc, q.canonical_name@) {
        let w = choose|w: int| 0 <= w < acc.len() && #[trigger] acc[w].canonical_name@ == q.canonical_name@;
        assert(r[w] == q);
        assert forall|i: int, j: int|
            0 <= i < j < r.len() implies #[trigger] r[i].canonical_name@
            != #[trigger] r[j].canonical_name@ by {
            assert(acc[i].canonical_name@ != acc[j].canonical_name@);
        }
    } else {
        assert(r[acc.len() as int] == q);
        assert forall|i: int, j: int|
            0 <= i < j < r.len() implies #[trigger] r[i].canonical_name@
            != #[trigger] r[j].canonical_name@ by {
            if j < acc.len() {
                assert(acc[i].canonical_name@ != acc[j].canonical_name@);
            } else {
                assert(r[j] == q);
                assert(r[i] == acc[i]);
                assert(acc[i].canonical_name@ != q.canonical_name@);
            }
        }
    }
}

/// After an upsert the merged name is present.
proof fn lemma_upsert_has(acc: Seq<Package>, q: Package)
    ensures
        has_canon(upsert(acc, q), q.canonical_name@),
{
    let r = upsert(acc, q);
    if has_canon(acc, q.canonical_name@) {
        let w = choose|w: int| 0 <= w < acc.len() && #[trigger] acc[w].canonical_name@ == q.canonical_name@;
        assert(r[w] == q);
        assert(r[w].canonical_name@ == q.canonical_name@);
    } else {
        assert(r[acc.len() as int] == q);
        assert(r[acc.len() as int].canonical_name@ == q.canonical_name@);
    }
}

/// An upsert never drops a name that was already present.
proof fn lemma_upsert_keeps(acc: Seq<Package>, q: Package, w: int)
    requires
        0 <= w < acc.len(),
    ensures
        has_canon(upsert(acc, q), acc[w].canonical_name@),
{
    let r = upsert(acc, q);
    if acc[w].canonical_name@ == q.canonical_name@ {
        lemma_upsert_has(acc, q);
    } else {
        if has_canon(acc, q.canonical_name@) {
            assert(r[w] == acc[w]);
            assert(r[w].canonical_name@ == acc[w].canonical_name@);
        } else {
            assert(r[w] == acc[w]);
            assert(r[w].canonical_name@ == acc[w].canonical_name@);
        }
    }
}

} // verus!

//! Interpreter discovery: parse interpreter versions out of file names on
//! the host search path and build a version-to-path table, keeping the first
//! path seen for each distinct version, the way the host itself resolves
//! executables.

use vstd::prelude::*;
use vstd::string::StringSliceAdditionalSpecFns;

use crate::version::version_bytes;
use crate::version::version_grammar;
use crate::version::wf_version;
use crate::version::Version;

verus! {

// ---------------------------------------------------------------------------
// Search path splitting
// ---------------------------------------------------------------------------

/// First index at or after `i` holding the path separator `:` (or the end).
pub open spec fn piece_end(s: Seq<char>, i: int) -> int
    decreases s.len() - i when 0 <= i <= s.len()
{
    if i < s.len() && s[i] != ':' {
        piece_end(s, i + 1)
    } else {
        i
    }
}

pub proof fn lemma_piece_end_bounds(s: Seq<char>, i: int)
    requires
        0 <= i <= s.len(),
    ensures
        i <= piece_end(s, i) <= s.len(),
    decreases s.len() - i,
{
    if i < s.len() && s[i] != ':' {
        lemma_piece_end_bounds(s, i + 1);
    }
}

/// The pieces of a search-path variable from `i` on, split on `:`.
pub open spec fn split_paths(s: Seq<char>, i: int) -> Seq<Seq<char>>
    decreases s.len() - i when 0 <= i <= s.len() via split_paths_decreases
{
    if i >= s.len() {
        Seq::empty()
    } else {
        let j = piece_end(s, i);
        seq![s.subrange(i, j)] + (if j < s.len() {
            split_paths(s, j + 1)
        } else {
            Seq::empty()
        })
    }
}

#[via_fn]
proof fn split_paths_decreases(s: Seq<char>, i: int) {
    lemma_piece_end_bounds(s, i);
}

/// Split the host search-path variable's value on the path separator;
/// empty input gives no paths.
pub fn env_path_values(path_var: &str) -> (r: Vec<String>)
    ensures
        r@.map_values(|p: String| p@) == split_paths(path_var@, 0),
{
    let ghost s = path_var@;
    let len = path_var.unicode_len();
    let mut out: Vec<String> = Vec::new();
    let mut i: usize = 0;
    let mut done = false;
    while !done
        invariant
            i <= len,
            len == s.len(),
            s == path_var@,
            !done ==> split_paths(s, 0) == out@.map_values(|p: String| p@) + split_paths(
                s,
                i as int,
            ),
            done ==> split_paths(s, 0) == out@.map_values(|p: String| p@),
        decreases (if done {
            0int
        } else {
            len - i + 2
        }),
    {
        if i >= len {
            proof {
                assert(split_paths(s, i as int) =~= Seq::<Seq<char>>::empty());
                assert(split_paths(s, 0) =~= out@.map_values(|p: String| p@));
            }
            done = true;
        } else {
            let ghost out_pre = out@;
            let mut j = i;
            while j < len && path_var.get_char(j) != ':'
                invariant
                    i <= j <= len,
                    len == s.len(),
                    s == path_var@,
                    piece_end(s, i as int) == piece_end(s, j as int),
                decreases len - j,
            {
                j = j + 1;
            }
            assert(piece_end(s, i as int) == j as int);
            let piece = path_var.substring_char(i, j).to_owned();
            out.push(piece);
            proof {
                assert(out@.map_values(|p: String| p@) =~= out_pre.map_values(|p: String| p@)
                    + seq![s.subrange(i as int, j as int)]);
            }
            if j < len {
                proof {
                    assert(split_paths(s, i as int) == seq![s.subrange(i as int, j as int)]
                        + split_paths(s, j as int + 1));
                    assert(split_paths(s, 0) =~= out@.map_values(|p: String| p@) + split_paths(
                        s,
                        j as int + 1,
                    ));
                }
                i = j + 1;
            } else {
                proof {
                    assert(split_paths(s, i as int) =~= seq![s.subrange(i as int, j as int)]);
                    assert(split_paths(s, 0) =~= out@.map_values(|p: String| p@));
                }
                done = true;
            }
        }
    }
    out
}

// ---------------------------------------------------------------------------
// Interpreter file names
// ---------------------------------------------------------------------------

/// Index where a path's file name starts: just past the last `/`.
pub open spec fn file_name_start(s: Seq<u8>) -> int
    decreases s.len(),
{
    if s.len() == 0 {
        0
    } else if s[s.len() - 1] == 47 {
        s.len() as int
    } else {
        file_name_start(s.drop_last())
    }
}

pub proof fn lemma_file_name_start_at(s: Seq<u8>, i: int)
    requires
        0 <= i <= s.len(),
        forall|k: int| i <= k < s.len() ==> s[k] != 47,
        i > 0 ==> s[i - 1] == 47,
    ensures
        file_name_start(s) == i,
    decreases s.len(),
{
    if s.len() == i {
        if i > 0 {
            assert(s[s.len() - 1] == 47);
        }
    } else {
        assert(s[s.len() - 1] != 47);
        assert(forall|k: int| i <= k < s.drop_last().len() ==> s.drop_last()[k] != 47);
        lemma_file_name_start_at(s.drop_last(), i);
    }
}

/// The file name of a path: everything past the last `/`.
pub open spec fn file_name_of(s: Seq<u8>) -> Seq<u8> {
    s.subrange(file_name_start(s), s.len() as int)
}

/// Bytes spelling `python`.
pub open spec fn python_prefix(s: Seq<u8>) -> bool {
    &&& s.len() >= 6
    &&& s[0] == 112
    &&& s[1] == 121
    &&& s[2] == 116
    &&& s[3] == 104
    &&& s[4] == 111
    &&& s[5] == 110
}

/// A file name an interpreter candidate must carry: `python` followed by a
/// version no shorter than `3.0`, so at least as long as `python3.0`.
pub open spec fn spec_valid_interpreter_name(s: Seq<u8>) -> bool {
    s.len() >= 9 && python_prefix(s)
}

/// Whether a file name has the shape of a Python interpreter: it starts with
/// `python` and is at least as long as `python3.0`.
pub fn valid_python_interpreter_file_name(file_name: &str) -> (r: bool)
    ensures
        r == spec_valid_interpreter_name(file_name.spec_bytes()),
{
    let bytes = file_name.as_bytes();
    bytes.len() >= 9 && bytes[0] == 112 && bytes[1] == 121 && bytes[2] == 116 && bytes[3] == 104
        && bytes[4] == 111 && bytes[5] == 110
}

/// The interpreter version spelled by a path's file name, if any: the file
/// name must be `python` followed by a canonical version of at least the
/// length of `3.0`. A name like `python` or `python3` yields nothing. This
/// is a heuristic on the name alone; the candidate is never executed.
pub fn python_version_from_path(path: &str) -> (r: Option<Version>)
    ensures
        ({
            let fname = file_name_of(path.spec_bytes());
            &&& (r is Some <==> spec_valid_interpreter_name(fname) && version_grammar(
                fname.skip(6),
            ))
            &&& (r matches Some(v) ==> wf_version(v) && version_bytes(v) == fname.skip(6))
        }),
{
    let ghost s = path.spec_bytes();
    let bytes = path.as_bytes();
    let len = bytes.len();
    let mut start = len;
    while start > 0 && bytes[start - 1] != 47
        invariant
            0 <= start <= len,
            len == s.len(),
            s == bytes@,
            forall|k: int| start <= k < len ==> s[k] != 47,
        decreases start,
    {
        start = start - 1;
    }
    proof {
        lemma_file_name_start_at(s, start as int);
    }
    let fname = vstd::slice::slice_subrange(bytes, start, len);
    if !(fname.len() >= 9 && fname[0] == 112 && fname[1] == 121 && fname[2] == 116 && fname[3]
        == 104 && fname[4] == 111 && fname[5] == 110) {
        return None;
    }
    let rest = vstd::slice::slice_subrange(fname, 6, fname.len());
    proof {
        assert(rest@ =~= file_name_of(s).skip(6));
    }
    Version::parse_bytes(rest)
}

// ---------------------------------------------------------------------------
// The version-to-path table
// ---------------------------------------------------------------------------

/// Discovered interpreters: one entry per distinct version, each carrying
/// the first path on the search path that spelled that version.
pub struct Interpreters {
    pub entries: Vec<(Version, String)>,
}

/// Every entry's version is well-formed and no two entries spell the same
/// version.
pub open spec fn wf_interpreters(t: Interpreters) -> bool {
    &&& forall|k: int| 0 <= k < t.entries@.len() ==> wf_version(#[trigger] t.entries@[k].0)
    &&& forall|k1: int, k2: int|
        0 <= k1 < k2 < t.entries@.len() ==> version_bytes(#[trigger] t.entries@[k1].0)
            != version_bytes(#[trigger] t.entries@[k2].0)
}

/// Whether a candidate path spells an interpreter version.
pub open spec fn path_has_version(p: Seq<char>) -> bool {
    let fname = file_name_of(vstd::utf8::encode_utf8(p));
    spec_valid_interpreter_name(fname) && version_grammar(fname.skip(6))
}

/// The canonical bytes of the version a candidate path spells.
pub open spec fn path_version_key(p: Seq<char>) -> Seq<u8> {
    file_name_of(vstd::utf8::encode_utf8(p)).skip(6)
}

/// The entry at `k` records the first candidate that spelled its version.
pub open spec fn entry_is_first_hit(t: Interpreters, paths: Seq<String>, k: int) -> bool {
    exists|i: int|
        {
            &&& 0 <= i < paths.len()
            &&& #[trigger] paths[i]@ == t.entries@[k].1@
            &&& path_has_version(paths[i]@)
            &&& version_bytes(t.entries@[k].0) == path_version_key(paths[i]@)
            &&& forall|j: int|
                0 <= j < i ==> !(path_has_version(#[trigger] paths[j]@) && path_version_key(
                    paths[j]@,
                ) == path_version_key(paths[i]@))
        }
}

/// Build the version-to-path table from interpreter candidates, keeping the
/// first path seen for each distinct version (later duplicates on the
/// search path are ignored) and skipping candidates whose file name spells
/// no version.
pub fn all_python_interpreters_in_paths(paths: &Vec<String>) -> (r: Interpreters)
    ensures
        wf_interpreters(r),
        forall|k: int| 0 <= k < r.entries@.len() ==> #[trigger] entry_is_first_hit(r, paths@, k),
        forall|i: int|
            0 <= i < paths@.len() && path_has_version(#[trigger] paths[i]@) ==> exists|k: int|
                0 <= k < r.entries@.len() && version_bytes(#[trigger] r.entries@[k].0)
                    == path_version_key(paths[i]@),
{
    let n = paths.len();
    let mut t = Interpreters { entries: Vec::new() };
    let mut i: usize = 0;
    while i < n
        invariant
            i <= n,
            n == paths@.len(),
            wf_interpreters(t),
            forall|k: int| 0 <= k < t.entries@.len() ==> #[trigger] entry_is_first_hit(
                t,
                paths@,
                k,
            ),
            forall|j: int|
                0 <= j < i && path_has_version(#[trigger] paths@[j]@) ==> exists|k: int|
                    0 <= k < t.entries@.len() && version_bytes(#[trigger] t.entries@[k].0)
                        == path_version_key(paths@[j]@),
        decreases n - i,
    {
        let ghost t_old = t;
        let p = &paths[i];
        match python_version_from_path(p.as_str()) {
            Some(v) => {
                proof {
                    assert(path_has_version(paths@[i as int]@));
                    assert(version_bytes(v) == path_version_key(paths@[i as int]@));
                }
                let key = version_key(&v);
                let mut seen = false;
                let m = t.entries.len();
                let mut k: usize = 0;
                while k < m
                    invariant
                        k <= m,
                        m == t.entries@.len(),
                        t == t_old,
                        wf_interpreters(t),
                        key@ == version_bytes(v),
                        seen <==> exists|q: int|
                            0 <= q < k && version_bytes(#[trigger] t.entries@[q].0) == key@,
                    decreases m - k,
                {
                    let ek = version_key(&t.entries[k].0);
                    if bytes_eq(&ek, &key) {
                        seen = true;
                        proof {
                            assert(version_bytes(t.entries@[k as int].0) == key@);
                        }
                    }
                    k = k + 1;
                }
                if !seen {
                    t.entries.push((v, p.clone()));
                    proof {
                        let newk = t.entries@.len() - 1;
                        assert(t.entries@[newk].1@ == paths@[i as int]@);
                        assert(version_bytes(t.entries@[newk].0) == path_version_key(
                            paths@[i as int]@,
                        ));
                        assert forall|j: int|
                            0 <= j < i implies !(path_has_version(#[trigger] paths@[j]@)
                            && path_version_key(paths@[j]@) == path_version_key(
                            paths@[i as int]@,
                        )) by {
                            if path_has_version(paths@[j]@) && path_version_key(paths@[j]@)
                                == path_version_key(paths@[i as int]@) {
                                let q = choose|q: int|
                                    0 <= q < t_old.entries@.len() && version_bytes(
                                        #[trigger] t_old.entries@[q].0,
                                    ) == path_version_key(paths@[j]@);
                                assert(version_bytes(t.entries@[q].0) == key@);
                                assert(false);
                            }
                        }
                        assert(entry_is_first_hit(t, paths@, newk));
                        assert forall|k2: int|
                            0 <= k2 < t.entries@.len() implies #[trigger] entry_is_first_hit(
                            t,
                            paths@,
                            k2,
                        ) by {
                            if k2 < newk {
                                assert(entry_is_first_hit(t_old, paths@, k2));
                                let w = choose|w: int|
                                    {
                                        &&& 0 <= w < paths@.len()
                                        &&& #[trigger] paths@[w]@ == t_old.entries@[k2].1@
                                        &&& path_has_version(paths@[w]@)
                                        &&& version_bytes(t_old.entries@[k2].0)
                                            == path_version_key(paths@[w]@)
                                        &&& forall|j: int|
                                            0 <= j < w ==> !(path_has_version(
                                                #[trigger] paths@[j]@,
                                            ) && path_version_key(paths@[j]@) == path_version_key(
                                                paths@[w]@,
                                            ))
                                    };
                                assert(t.entries@[k2] == t_old.entries@[k2]);
                            }
                        }
                    }
                } else {
                    proof {
                        let q = choose|q: int|
                            0 <= q < t.entries@.len() && version_bytes(
                                #[trigger] t.entries@[q].0,
                            ) == key@;
                        assert(version_bytes(t.entries@[q].0) == path_version_key(
                            paths@[i as int]@,
                        ));
                    }
                }
            },
            None => {
                proof {
                    assert(!path_has_version(paths@[i as int]@));
                }
            },
        }
        proof {
            assert forall|j: int|
                0 <= j < i + 1 && path_has_version(#[trigger] paths@[j]@) implies exists|k: int|
                0 <= k < t.entries@.len() && version_bytes(#[trigger] t.entries@[k].0)
                    == path_version_key(paths@[j]@) by {
                if j < i {
                    let k = choose|k: int|
                        0 <= k < t_old.entries@.len() && version_bytes(
                            #[trigger] t_old.entries@[k].0,
                        ) == path_version_key(paths@[j]@);
                    assert(t.entries@[k] == t_old.entries@[k]);
                    assert(0 <= k < t.entries@.len() && version_bytes(t.entries@[k].0)
                        == path_version_key(paths@[j]@));
                }
            }
        }
        i = i + 1;
    }
    t
}

/// The canonical bytes of a version.
pub(crate) fn version_key(v: &Version) -> (r: Vec<u8>)
    requires
        wf_version(*v),
    ensures
        r@ == version_bytes(*v),
{
    let mut out: Vec<u8> = Vec::new();
    v.push_bytes(&mut out);
    proof {
        assert(out@ =~= version_bytes(*v));
    }
    out
}

/// Element-wise equality of byte vectors.
pub(crate) fn bytes_eq(a: &Vec<u8>, b: &Vec<u8>) -> (r: bool)
    ensures
        r == (a@ == b@),
{
    let alen = a.len();
    if alen != b.len() {
        proof {
            assert(a@.len() != b@.len());
        }
        return false;
    }
    let mut i: usize = 0;
    while i < alen
        invariant
            i <= alen,
            alen == a@.len(),
            alen == b@.len(),
            forall|j: int| 0 <= j < i ==> a@[j] == b@[j],
        decreases alen - i,
    {
        if a[i] != b[i] {
            proof {
                assert(a@[i as int] != b@[i as int]);
            }
            return false;
        }
        i = i + 1;
    }
    proof {
        assert(a@ =~= b@);
    }
    true
}

impl Interpreters {
    /// How many distinct interpreter versions were found.
    pub fn len(&self) -> (r: usize)
        ensures
            r == self.entries@.len(),
    {
        self.entries.len()
    }

    /// The entry holding the highest version, or nothing when the table is
    /// empty.
    pub fn latest(&self) -> (r: Option<&(Version, String)>)
        requires
            wf_interpreters(*self),
        ensures
            r is Some <==> self.entries@.len() > 0,
            r matches Some(e) ==> {
                &&& exists|k: int| 0 <= k < self.entries@.len() && self.entries@[k] == *e
                &&& forall|k: int|
                    0 <= k < self.entries@.len() ==> !crate::version::version_lt(
                        e.0,
                        #[trigger] self.entries@[k].0,
                    )
            },
    {
        let m = self.entries.len();
        if m == 0 {
            return None;
        }
        let mut best: usize = 0;
        let mut k: usize = 1;
        proof {
            crate::version::lemma_version_lt_irrefl(self.entries@[0].0, self.entries@[0].0);
        }
        while k < m
            invariant
                best < k <= m,
                m == self.entries@.len(),
                forall|q: int|
                    0 <= q < k ==> !crate::version::version_lt(
                        self.entries@[best as int].0,
                        #[trigger] self.entries@[q].0,
                    ),
            decreases m - k,
        {
            let ghost prev = best as int;
            match self.entries[best].0.compare(&self.entries[k].0) {
                core::cmp::Ordering::Less => {
                    best = k;
                },
                _ => {},
            }
            proof {
                assert forall|q: int| 0 <= q < k + 1 implies !crate::version::version_lt(
                    self.entries@[best as int].0,
                    #[trigger] self.entries@[q].0,
                ) by {
                    if crate::version::version_lt(
                        self.entries@[best as int].0,
                        self.entries@[q].0,
                    ) {
                        if best as int == prev {
                            // the old maximum was kept, so only q == k is new
                            assert(q == k);
                            assert(false);
                        } else {
                            if q < k {
                                crate::version::lemma_version_lt_trans(
                                    self.entries@[prev].0,
                                    self.entries@[k as int].0,
                                    self.entries@[q].0,
                                );
                            } else {
                                crate::version::lemma_version_lt_irrefl(
                                    self.entries@[k as int].0,
                                    self.entries@[k as int].0,
                                );
                            }
                            assert(false);
                        }
                    }
                }
            }
            k = k + 1;
        }
        Some(&self.entries[best])
    }
}

} // verus!

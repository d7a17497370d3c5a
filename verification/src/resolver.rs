//! The dependency resolver: reconcile a requested package set against the
//! packages an environment already holds. Merging is by canonical name and
//! a requested package replaces whatever the baseline held under that name;
//! an environment keeps at most one version per canonical name. Two
//! requested packages that share a canonical name but disagree on their
//! constraint are a conflict, reported with both specifiers and never
//! auto-resolved.

use vstd::prelude::*;
use vstd::pervasive::VecAdditionalExecFns;

use crate::error::HuakError;
use crate::package::clone_pkgs;
use crate::package::pkg_like;
use crate::package::pkgs_like;
use crate::package::spec_specifier_eq;
use crate::package::wf_package;
use crate::package::Package;

verus! {

/// Whether some package in `acc` carries this canonical name.
pub open spec fn has_canon(acc: Seq<Package>, canon: Seq<char>) -> bool {
    exists|i: int| 0 <= i < acc.len() && #[trigger] acc[i].canonical_name@ == canon
}

/// No two packages share a canonical name.
pub open spec fn unique_canon(acc: Seq<Package>) -> bool {
    forall|i: int, j: int|
        0 <= i < j < acc.len() ==> #[trigger] acc[i].canonical_name@
            != #[trigger] acc[j].canonical_name@
}

/// Merge one requested package into an accumulated set: replace the entry
/// with the same canonical name, or append when the name is new.
pub open spec fn upsert(acc: Seq<Package>, d: Package) -> Seq<Package> {
    if has_canon(acc, d.canonical_name@) {
        Seq::new(
            acc.len(),
            |k: int|
                if acc[k].canonical_name@ == d.canonical_name@ {
                    d
                } else {
                    acc[k]
                },
        )
    } else {
        acc.push(d)
    }
}

/// Merge requested packages left to right into the baseline; a later
/// request for a name wins over an earlier one.
pub open spec fn merge_deps(acc: Seq<Package>, deps: Seq<Package>) -> Seq<Package>
    decreases deps.len(),
{
    if deps.len() == 0 {
        acc
    } else {
        merge_deps(upsert(acc, deps[0]), deps.skip(1))
    }
}

/// Two requested packages clash: same canonical name, different constraint.
pub open spec fn req_conflict(a: Package, b: Package) -> bool {
    a.canonical_name@ == b.canonical_name@ && !spec_specifier_eq(a.specifier, b.specifier)
}

/// Merging one package at the end is one upsert.
proof fn lemma_merge_snoc(acc: Seq<Package>, deps: Seq<Package>, d: Package)
    ensures
        merge_deps(acc, deps.push(d)) == upsert(merge_deps(acc, deps), d),
    decreases deps.len(),
{
    if deps.len() == 0 {
        assert(deps.push(d).skip(1) =~= Seq::<Package>::empty());
        assert(deps.push(d)[0] == d);
        assert(merge_deps(upsert(acc, d), Seq::<Package>::empty()) == upsert(acc, d));
        assert(merge_deps(acc, deps) == acc);
    } else {
        assert(deps.push(d)[0] == deps[0]);
        assert(deps.push(d).skip(1) =~= deps.skip(1).push(d));
        lemma_merge_snoc(upsert(acc, deps[0]), deps.skip(1), d);
        assert(merge_deps(acc, deps.push(d)) == merge_deps(upsert(acc, deps[0]), deps.skip(1).push(d)));
        assert(merge_deps(acc, deps) == merge_deps(upsert(acc, deps[0]), deps.skip(1)));
    }
}

/// A struct for staging and resolving requested dependencies. Transient:
/// `resolve` is a pure function of the requested set and the baseline.
pub struct DependencyResolver {
    pub dependencies: Vec<Package>,
}

impl DependencyResolver {
    /// A resolver with nothing requested.
    pub fn new() -> (r: DependencyResolver)
        ensures
            r.dependencies@.len() == 0,
    {
        DependencyResolver { dependencies: Vec::new() }
    }

    /// The staged requested packages.
    pub fn dependencies(&self) -> (r: &Vec<Package>)
        ensures
            r@ == self.dependencies@,
    {
        &self.dependencies
    }

    /// Stage a requested set; staging an empty set changes nothing.
    pub fn with_dependencies(&mut self, dependencies: &Vec<Package>)
        ensures
            dependencies@.len() == 0 ==> final(self).dependencies@ == old(self).dependencies@,
            dependencies@.len() > 0 ==> pkgs_like(dependencies@, final(self).dependencies@),
            dependencies@.len() > 0 ==> (forall|i: int|
                0 <= i < dependencies@.len() && wf_package(#[trigger] dependencies@[i])
                    ==> wf_package(#[trigger] final(self).dependencies@[i])),
    {
        if dependencies.len() == 0 {
            return ;
        }
        self.dependencies = clone_pkgs(dependencies);
    }

    /// Merge the requested set into the baseline of installed packages. A
    /// requested package replaces the baseline entry with its canonical
    /// name; names new to the baseline are appended in request order, a
    /// later request winning over an earlier one. Fails, naming both
    /// specifiers, exactly when two requested packages share a canonical
    /// name with different constraints.
    pub fn resolve(&self, installed: &Vec<Package>) -> (r: Result<Vec<Package>, HuakError>)
        requires
            forall|i: int|
                0 <= i < self.dependencies@.len() ==> wf_package(#[trigger] self.dependencies@[i]),
            forall|i: int| 0 <= i < installed@.len() ==> wf_package(#[trigger] installed@[i]),
        ensures
            r is Err <==> exists|i: int, j: int|
                0 <= i < j < self.dependencies@.len() && req_conflict(
                    #[trigger] self.dependencies@[i],
                    #[trigger] self.dependencies@[j],
                ),
            r matches Err(e) ==> (e matches HuakError::ConflictError { first, second }
                && exists|i: int, j: int|
                {
                    &&& 0 <= i < j < self.dependencies@.len()
                    &&& req_conflict(
                        #[trigger] self.dependencies@[i],
                        #[trigger] self.dependencies@[j],
                    )
                    &&& first@ == crate::version::ascii_view(
                        crate::package::dep_bytes(self.dependencies@[i]),
                    )
                    &&& second@ == crate::version::ascii_view(
                        crate::package::dep_bytes(self.dependencies@[j]),
                    )
                }),
            r matches Ok(out) ==> {
                &&& pkgs_like(merge_deps(installed@, self.dependencies@), out@)
                &&& forall|k: int| 0 <= k < out@.len() ==> wf_package(#[trigger] out@[k])
            },
    {
        let deps = &self.dependencies;
        let n = deps.len();
        let mut i: usize = 0;
        while i < n
            invariant
                i <= n,
                n == deps@.len(),
                deps == &self.dependencies,
                forall|a: int|
                    0 <= a < self.dependencies@.len() ==> wf_package(
                        #[trigger] self.dependencies@[a],
                    ),
                forall|a: int, b: int|
                    0 <= a < b < deps@.len() && a < i ==> !req_conflict(
                        #[trigger] deps@[a],
                        #[trigger] deps@[b],
                    ),
            decreases n - i,
        {
            let mut j = i + 1;
            while j < n
                invariant
                    i < j <= n,
                    n == deps@.len(),
                    deps == &self.dependencies,
                    forall|a: int|
                        0 <= a < self.dependencies@.len() ==> wf_package(
                            #[trigger] self.dependencies@[a],
                        ),
                    forall|b: int|
                        i < b < j ==> !req_conflict(
                            #[trigger] deps@[i as int],
                            #[trigger] deps@[b],
                        ),
                decreases n - j,
            {
                let same = deps[i].canonical_name == deps[j].canonical_name;
                if same && !crate::package::specifier_eq(&deps[i].specifier, &deps[j].specifier) {
                    proof {
                        assert(req_conflict(deps@[i as int], deps@[j as int]));
                    }
                    return Err(
                        HuakError::ConflictError {
                            first: deps[i].dependency_str(),
                            second: deps[j].dependency_str(),
                        },
                    );
                }
                j = j + 1;
            }
            i = i + 1;
        }
        let mut out = clone_pkgs(installed);
        proof {
            assert(deps@.take(0) =~= Seq::<Package>::empty());
            assert forall|k: int| 0 <= k < out@.len() implies wf_package(#[trigger] out@[k]) by {
                assert(wf_package(installed@[k]));
            }
        }
        let mut m: usize = 0;
        while m < n
            invariant
                m <= n,
                n == deps@.len(),
                deps == &self.dependencies,
                forall|a: int|
                    0 <= a < self.dependencies@.len() ==> wf_package(
                        #[trigger] self.dependencies@[a],
                    ),
                pkgs_like(merge_deps(installed@, deps@.take(m as int)), out@),
                forall|k: int| 0 <= k < out@.len() ==> wf_package(#[trigger] out@[k]),
            decreases n - m,
        {
            let ghost acc_pre = merge_deps(installed@, deps@.take(m as int));
            let ghost out_pre = out@;
            let ghost dm = deps@[m as int];
            let d = &deps[m];
            let olen = out.len();
            let mut found = false;
            let mut k: usize = 0;
            while k < olen
                invariant
                    k <= olen,
                    olen == out@.len(),
                    out@ == out_pre,
                    d == &deps@[m as int],
                    m < deps@.len(),
                    dm == deps@[m as int],
                    found <==> exists|q: int|
                        0 <= q < k && #[trigger] out@[q].canonical_name@ == dm.canonical_name@,
                decreases olen - k,
            {
                if out[k].canonical_name == d.canonical_name {
                    found = true;
                    proof {
                        assert(out@[k as int].canonical_name@ == dm.canonical_name@);
                    }
                }
                k = k + 1;
            }
            if found {
                // replace every entry carrying this canonical name
                let mut q: usize = 0;
                while q < olen
                    invariant
                        q <= olen,
                        olen == out@.len(),
                        d == &deps@[m as int],
                        m < deps@.len(),
                        dm == deps@[m as int],
                        wf_package(dm),
                        forall|a: int| q <= a < out@.len() ==> #[trigger] out@[a] == out_pre[a],
                        forall|a: int|
                            0 <= a < q && out_pre[a].canonical_name@ == dm.canonical_name@
                                ==> pkg_like(dm, #[trigger] out@[a]) && wf_package(out@[a]),
                        forall|a: int|
                            0 <= a < q && out_pre[a].canonical_name@ != dm.canonical_name@
                                ==> #[trigger] out@[a] == out_pre[a],
                        forall|a: int| 0 <= a < out@.len() ==> wf_package(#[trigger] out@[a]),
                    decreases olen - q,
                {
                    if out[q].canonical_name == d.canonical_name {
                        out.set(q, d.clone());
                    }
                    q = q + 1;
                }
                proof {
                    assert(has_canon(out_pre, dm.canonical_name@));
                    assert(has_canon(acc_pre, dm.canonical_name@)) by {
                        let w = choose|w: int|
                            0 <= w < out_pre.len() && #[trigger] out_pre[w].canonical_name@
                                == dm.canonical_name@;
                        assert(pkg_like(acc_pre[w], out_pre[w]));
                    }
                    assert forall|a: int| 0 <= a < out@.len() implies pkg_like(
                        #[trigger] upsert(acc_pre, dm)[a],
                        out@[a],
                    ) by {
                        assert(pkg_like(acc_pre[a], out_pre[a]));
                        if acc_pre[a].canonical_name@ == dm.canonical_name@ {
                            assert(out_pre[a].canonical_name@ == dm.canonical_name@);
                            assert(upsert(acc_pre, dm)[a] == dm);
                        } else {
                            assert(out_pre[a].canonical_name@ != dm.canonical_name@);
                            assert(upsert(acc_pre, dm)[a] == acc_pre[a]);
                            assert(out@[a] == out_pre[a]);
                        }
                    }
                    assert(pkgs_like(upsert(acc_pre, dm), out@));
                }
            } else {
                out.push(d.clone());
                proof {
                    assert(!has_canon(acc_pre, dm.canonical_name@)) by {
                        if has_canon(acc_pre, dm.canonical_name@) {
                            let w = choose|w: int|
                                0 <= w < acc_pre.len() && #[trigger] acc_pre[w].canonical_name@
                                    == dm.canonical_name@;
                            assert(pkg_like(acc_pre[w], out_pre[w]));
                            assert(out_pre[w].canonical_name@ == dm.canonical_name@);
                        }
                    }
                    assert(upsert(acc_pre, dm) == acc_pre.push(dm));
                    assert forall|a: int| 0 <= a < out@.len() implies pkg_like(
                        #[trigger] upsert(acc_pre, dm)[a],
                        out@[a],
                    ) by {
                        if a < acc_pre.len() {
                            assert(pkg_like(acc_pre[a], out_pre[a]));
                            assert(acc_pre.push(dm)[a] == acc_pre[a]);
                            assert(out@[a] == out_pre[a]);
                        } else {
                            assert(acc_pre.push(dm)[a] == dm);
                        }
                    }
                    assert(pkgs_like(upsert(acc_pre, dm), out@));
                }
            }
            proof {
                assert(deps@.take(m as int + 1) =~= deps@.take(m as int).push(dm));
                lemma_merge_snoc(installed@, deps@.take(m as int), dm);
            }
            m = m + 1;
        }
        proof {
            assert(deps@.take(n as int) =~= deps@);
        }
        Ok(out)
    }
}

} // verus!
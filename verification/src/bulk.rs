//! The fetch orchestrator's merge step: per-package outcomes are combined
//! with fallback data, counted, and imposed the packages' natural name
//! order, so the final output does not depend on the order in which
//! concurrent probes completed.

use vstd::prelude::*;
use vstd::multiset::Multiset;
use vstd::seq_lib::*;

use crate::package::{Package, PackageV, VersionChannel, VersionChannelV};
use crate::probe::FetchError;
use crate::strutil::{lemma_lex_le_antisym, lemma_lex_le_total, lemma_lex_le_trans, lex_le,
    str_le};

verus! {

broadcast use vstd::seq_lib::group_to_multiset_ensures, vstd::multiset::group_multiset_axioms;

/// The outcome of the probe phase for one package.
#[derive(Debug)]
pub enum PackageProbe {
    /// Every enabled channel was probed and validated.
    Fetched(Vec<VersionChannel>),
    /// The sampling policy chose not to probe this run.
    Skipped,
    /// A probe or validation failed; the whole package falls back.
    Failed(FetchError),
}

/// A run-level error for one package.
#[derive(Clone, Copy, PartialEq, Eq, Structural, Debug)]
pub enum RunError {
    /// Fallback data was required but absent or unreadable.
    MissingFallback,
}

/// One package's resolved result: its channel versions, and whether they
/// came from a sampling skip or a failed probe.
#[derive(Debug)]
pub struct FetchedPackage {
    pub package: Package,
    pub versions: Vec<VersionChannel>,
    pub skipped: bool,
    pub failed: bool,
}

/// Mathematical model of a resolved package result.
#[verifier::ext_equal]
pub struct FetchedPackageV {
    pub package: PackageV,
    pub versions: Seq<VersionChannelV>,
    pub skipped: bool,
    pub failed: bool,
}

impl View for FetchedPackage {
    type V = FetchedPackageV;

    open spec fn view(&self) -> FetchedPackageV {
        FetchedPackageV {
            package: self.package@,
            versions: self.versions@.map_values(|v: VersionChannel| v@),
            skipped: self.skipped,
            failed: self.failed,
        }
    }
}

/// Aggregate counters for one run: packages considered, skipped by the
/// sampling policy, failed and fallen back, and successfully checked
/// (freshly probed); the last three partition the total.
#[derive(Clone, Copy, PartialEq, Eq, Structural, Debug)]
pub struct FetchReport {
    pub total: usize,
    pub skipped: usize,
    pub failed: usize,
    pub checked: usize,
}

/// Combines one package's probe outcome with its fallback data: fresh
/// results are kept, a skip or failure substitutes the entire fallback
/// set, and a missing fallback when one is required is a run-level error.
pub fn resolve_outcome(
    package: Package,
    outcome: PackageProbe,
    fallback: Option<Vec<VersionChannel>>,
) -> (r: Result<FetchedPackage, RunError>)
    ensures
        match outcome {
            PackageProbe::Fetched(v) => r matches Ok(f) && f.package == package && f.versions == v
                && !f.skipped && !f.failed,
            PackageProbe::Skipped => match fallback {
                Some(fb) => r matches Ok(f) && f.package == package && f.versions == fb
                    && f.skipped && !f.failed,
                None => r matches Err(e) && e == RunError::MissingFallback,
            },
            PackageProbe::Failed(_) => match fallback {
                Some(fb) => r matches Ok(f) && f.package == package && f.versions == fb
                    && !f.skipped && f.failed,
                None => r matches Err(e) && e == RunError::MissingFallback,
            },
        },
{
    match outcome {
        PackageProbe::Fetched(v) => Ok(
            FetchedPackage { package, versions: v, skipped: false, failed: false },
        ),
        PackageProbe::Skipped => match fallback {
            Some(fb) => Ok(FetchedPackage { package, versions: fb, skipped: true, failed: false }),
            None => Err(RunError::MissingFallback),
        },
        PackageProbe::Failed(_) => match fallback {
            Some(fb) => Ok(FetchedPackage { package, versions: fb, skipped: false, failed: true }),
            None => Err(RunError::MissingFallback),
        },
    }
}

/// The views of a result list.
pub open spec fn pkg_views(s: Seq<FetchedPackage>) -> Seq<FetchedPackageV> {
    s.map_values(|f: FetchedPackage| f@)
}

/// Results ordered by package name.
pub open spec fn sorted_by_name(s: Seq<FetchedPackageV>) -> bool {
    forall|i: int, j: int|
        0 <= i < j < s.len() ==> lex_le(#[trigger] s[i].package.name, #[trigger] s[j].package.name)
}

/// No two results belong to packages of the same name.
pub open spec fn distinct_names(s: Seq<FetchedPackageV>) -> bool {
    forall|i: int, j: int|
        0 <= i < j < s.len() ==> (#[trigger] s[i].package.name) != (#[trigger] s[j].package.name)
}

/// Number of results that came from a sampling skip.
pub open spec fn count_skipped(s: Seq<FetchedPackageV>) -> nat
    decreases s.len(),
{
    if s.len() == 0 {
        0
    } else {
        count_skipped(s.drop_last()) + if s.last().skipped {
            1nat
        } else {
            0nat
        }
    }
}

/// Number of results that came from a failed probe.
pub open spec fn count_failed(s: Seq<FetchedPackageV>) -> nat
    decreases s.len(),
{
    if s.len() == 0 {
        0
    } else {
        count_failed(s.drop_last()) + if s.last().failed {
            1nat
        } else {
            0nat
        }
    }
}

/// Number of results that were freshly probed.
pub open spec fn count_fresh(s: Seq<FetchedPackageV>) -> nat
    decreases s.len(),
{
    if s.len() == 0 {
        0
    } else {
        count_fresh(s.drop_last()) + if !s.last().skipped && !s.last().failed {
            1nat
        } else {
            0nat
        }
    }
}

/// In a run where no result is both skipped and failed — as the resolve
/// step guarantees — the skipped, failed and fresh counts partition the
/// package set, so the report's counts sum to its total.
pub proof fn lemma_report_partition(s: Seq<FetchedPackageV>)
    requires
        forall|i: int| 0 <= i < s.len() ==> !((#[trigger] s[i]).skipped && s[i].failed),
    ensures
        count_skipped(s) + count_failed(s) + count_fresh(s) == s.len(),
    decreases s.len(),
{
    if s.len() > 0 {
        lemma_report_partition(s.drop_last());
    }
}

/// Index of a result whose package name is no later than every other.
fn find_min_idx(v: &Vec<FetchedPackage>) -> (m: usize)
    requires
        v@.len() > 0,
    ensures
        m < v@.len(),
        forall|j: int|
            0 <= j < v@.len() ==> lex_le(v@[m as int]@.package.name, (#[trigger] v@[j])@.package.name),
{
    let n = v.len();
    let mut m: usize = 0;
    let mut i: usize = 1;
    proof {
        lemma_lex_le_total(v@[0]@.package.name, v@[0]@.package.name);
    }
    while i < n
        invariant
            m < i <= n,
            n == v@.len(),
            forall|j: int|
                0 <= j < i ==> lex_le(v@[m as int]@.package.name, (#[trigger] v@[j])@.package.name),
        decreases n - i,
    {
        if str_le(v[i].package.name.as_str(), v[m].package.name.as_str()) {
            proof {
                assert forall|j: int| 0 <= j < i + 1 implies lex_le(
                    v@[i as int]@.package.name,
                    (#[trigger] v@[j])@.package.name,
                ) by {
                    if j < i {
                        lemma_lex_le_trans(
                            v@[i as int]@.package.name,
                            v@[m as int]@.package.name,
                            v@[j]@.package.name,
                        );
                    } else {
                        lemma_lex_le_total(v@[i as int]@.package.name, v@[i as int]@.package.name);
                    }
                }
            }
            m = i;
        } else {
            proof {
                lemma_lex_le_total(v@[m as int]@.package.name, v@[i as int]@.package.name);
            }
        }
        i = i + 1;
    }
    m
}

/// Sorts a result list by package name.
fn sort_packages(input: Vec<FetchedPackage>) -> (out: Vec<FetchedPackage>)
    ensures
        pkg_views(out@).to_multiset() == pkg_views(input@).to_multiset(),
        sorted_by_name(pkg_views(out@)),
        out@.len() == input@.len(),
{
    let ghost orig = pkg_views(input@);
    let mut work = input;
    let mut out: Vec<FetchedPackage> = Vec::new();
    proof {
        assert(pkg_views(out@) =~~= Seq::<FetchedPackageV>::empty());
        assert(pkg_views(out@).to_multiset().add(pkg_views(work@).to_multiset())
            =~= orig.to_multiset());
    }
    while work.len() > 0
        invariant
            pkg_views(out@).to_multiset().add(pkg_views(work@).to_multiset())
                == orig.to_multiset(),
            sorted_by_name(pkg_views(out@)),
            forall|i: int, j: int|
                0 <= i < out@.len() && 0 <= j < work@.len() ==> lex_le(
                    (#[trigger] pkg_views(out@)[i]).package.name,
                    (#[trigger] pkg_views(work@)[j]).package.name,
                ),
            out@.len() + work@.len() == orig.len(),
        decreases work.len(),
    {
        let m = find_min_idx(&work);
        let ghost work0 = pkg_views(work@);
        let ghost out0 = pkg_views(out@);
        let x = work.remove(m);
        out.push(x);
        proof {
            assert(pkg_views(work@) =~~= work0.remove(m as int));
            assert(pkg_views(out@) =~~= out0.push(x@));
            assert(x@ == work0[m as int]);
            assert(pkg_views(out@).to_multiset() =~= out0.to_multiset().insert(x@));
            assert(pkg_views(work@).to_multiset() =~= work0.to_multiset().remove(x@));
            assert(work0.to_multiset().contains(x@));
            assert(pkg_views(out@).to_multiset().add(pkg_views(work@).to_multiset())
                =~= orig.to_multiset());
            assert(sorted_by_name(pkg_views(out@))) by {
                assert(forall|i: int|
                    0 <= i < out0.len() ==> pkg_views(out@)[i] == out0[i]);
                assert(pkg_views(out@)[out0.len() as int] == x@);
            }
            assert forall|i: int, j: int|
                0 <= i < out@.len() && 0 <= j < work@.len() implies lex_le(
                (#[trigger] pkg_views(out@)[i]).package.name,
                (#[trigger] pkg_views(work@)[j]).package.name,
            ) by {
                let wj = pkg_views(work@)[j];
                assert(wj == work0[if j < m { j } else { j + 1 }]);
                if i < out0.len() {
                    assert(pkg_views(out@)[i] == out0[i]);
                } else {
                    assert(pkg_views(out@)[i] == x@);
                }
            }
        }
    }
    proof {
        assert(pkg_views(work@) =~~= Seq::<FetchedPackageV>::empty());
        assert(pkg_views(work@).to_multiset() =~= Multiset::<FetchedPackageV>::empty());
        assert(pkg_views(out@).to_multiset() =~= orig.to_multiset());
        assert(pkg_views(out@).to_multiset().len() == orig.to_multiset().len());
    }
    out
}

/// Merges the resolved per-package results: counts skips and failures,
/// and imposes the packages' name order on the output, whatever order the
/// results arrived in.
pub fn merge_results(results: Vec<FetchedPackage>) -> (r: (Vec<FetchedPackage>, FetchReport))
    ensures
        sorted_by_name(pkg_views(r.0@)),
        pkg_views(r.0@).to_multiset() == pkg_views(results@).to_multiset(),
        r.0@.len() == results@.len(),
        r.1.total == results@.len(),
        r.1.skipped == count_skipped(pkg_views(results@)),
        r.1.failed == count_failed(pkg_views(results@)),
        r.1.checked == count_fresh(pkg_views(results@)),
{
    let ghost rv = pkg_views(results@);
    let n = results.len();
    let mut skipped: usize = 0;
    let mut failed: usize = 0;
    let mut fresh: usize = 0;
    let mut i: usize = 0;
    proof {
        assert(rv.subrange(0, 0) =~~= Seq::<FetchedPackageV>::empty());
    }
    while i < n
        invariant
            i <= n,
            n == results@.len(),
            rv == pkg_views(results@),
            skipped == count_skipped(rv.subrange(0, i as int)),
            failed == count_failed(rv.subrange(0, i as int)),
            fresh == count_fresh(rv.subrange(0, i as int)),
            skipped <= i,
            failed <= i,
            fresh <= i,
        decreases n - i,
    {
        proof {
            assert(rv.subrange(0, i + 1).drop_last() =~~= rv.subrange(0, i as int));
            assert(rv.subrange(0, i + 1).last() == rv[i as int]);
            assert(rv[i as int] == results@[i as int]@);
        }
        if results[i].skipped {
            skipped = skipped + 1;
        }
        if results[i].failed {
            failed = failed + 1;
        }
        if !results[i].skipped && !results[i].failed {
            fresh = fresh + 1;
        }
        i = i + 1;
    }
    proof {
        assert(rv.subrange(0, n as int) =~~= rv);
    }
    let total = n;
    let sorted = sort_packages(results);
    (sorted, FetchReport { total, skipped, failed, checked: fresh })
}

/// Output determinism: two name-ordered result lists over packages with
/// distinct names that hold the same results — in whatever order they
/// were produced — are the same list.
pub proof fn lemma_merge_deterministic(a: Seq<FetchedPackageV>, b: Seq<FetchedPackageV>)
    requires
        sorted_by_name(a),
        sorted_by_name(b),
        distinct_names(a),
        a.to_multiset() == b.to_multiset(),
    ensures
        a == b,
    decreases a.len(),
{
    if a.len() == 0 {
        assert(b.to_multiset().len() == 0);
        assert(a =~= b);
    } else {
        a.to_multiset_ensures();
        b.to_multiset_ensures();
        assert(a.to_multiset().len() == b.to_multiset().len());
        assert(b.len() > 0);
        assert(a.to_multiset().contains(a[0]));
        assert(b.to_multiset().contains(b[0]));
        assert(a.to_multiset().contains(b[0]));
        assert(b.to_multiset().contains(a[0]));
        let i = choose|i: int| 0 <= i < a.len() && a[i] == b[0];
        let j = choose|j: int| 0 <= j < b.len() && b[j] == a[0];
        if i > 0 && j > 0 {
            assert(lex_le(a[0].package.name, a[i].package.name));
            assert(lex_le(b[0].package.name, b[j].package.name));
            lemma_lex_le_antisym(a[0].package.name, b[0].package.name);
            assert(a[i].package.name == a[0].package.name);
            assert(false);
        }
        assert(a[0] == b[0]);
        assert(a.drop_first() =~= a.remove(0));
        assert(b.drop_first() =~= b.remove(0));
        assert(a.remove(0).to_multiset() =~= a.to_multiset().remove(a[0]));
        assert(b.remove(0).to_multiset() =~= b.to_multiset().remove(b[0]));
        assert(a.drop_first().to_multiset() =~= a.to_multiset().remove(a[0]));
        assert(b.drop_first().to_multiset() =~= b.to_multiset().remove(b[0]));
        assert(forall|k: int|
            0 <= k < a.len() - 1 ==> #[trigger] a.drop_first()[k] == a[k + 1]);
        assert(forall|k: int|
            0 <= k < b.len() - 1 ==> #[trigger] b.drop_first()[k] == b[k + 1]);
        lemma_merge_deterministic(a.drop_first(), b.drop_first(), );
        assert(a =~= seq![a[0]] + a.drop_first());
        assert(b =~= seq![b[0]] + b.drop_first());
    }
}

} // verus!

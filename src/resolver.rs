//! The decisions of the resolver: where a POM comes from, how a fetched
//! POM is completed, which coordinates an explorer fans out to, when a
//! parent chain is cyclic, and the ordered list of resolved JARs.

use vstd::prelude::*;
use crate::coordinate::{notation_of, MavenRepo, MavenRepoDependency};
use crate::error::ResolveError;
use crate::order::{
    lemma_lt_total, lemma_lt_transitive, lemma_sorted_unique, strictly_sorted, text_less, text_lt,
};
use crate::pom::{pom_clean, pom_merge, MavenPom, PomModel};

verus! {

/// The notation (`group:artifact:version`) of a coordinate.
pub open spec fn notation(c: MavenRepoDependency) -> Seq<char> {
    notation_of(c.group@, c.artifact@, c.version@)
}

pub open spec fn notations(s: Seq<MavenRepoDependency>) -> Seq<Seq<char>> {
    s.map_values(|c: MavenRepoDependency| notation(c))
}

/// `dir/name`.
pub open spec fn local_path(dir: Seq<char>, name: Seq<char>) -> Seq<char> {
    dir + seq!['/'] + name
}

fn join_path(dir: &String, name: &String) -> (r: String)
    ensures
        r@ == local_path(dir@, name@),
{
    let mut r = dir.clone();
    r.push('/');
    r.append(name.as_str());
    r
}

/// Where a file of a coordinate comes from.
pub enum FetchPlan {
    /// It is in the on-disk cache, at this path.
    ReadCached { path: String },
    /// Download it from this URL to this path.
    Download { url: String, path: String },
}

pub ghost enum FetchPlanModel {
    ReadCached(Seq<char>),
    Download(Seq<char>, Seq<char>),
}

impl View for FetchPlan {
    type V = FetchPlanModel;

    open spec fn view(&self) -> FetchPlanModel {
        match self {
            FetchPlan::ReadCached { path } => FetchPlanModel::ReadCached(path@),
            FetchPlan::Download { url, path } => FetchPlanModel::Download(url@, path@),
        }
    }
}

/// The plan for the file `name` of `c`, served at `url`, given whether the
/// on-disk cache holds it.
pub open spec fn plan_spec(dir: Seq<char>, name: Seq<char>, url: Seq<char>, cached: bool) -> FetchPlanModel {
    if cached {
        FetchPlanModel::ReadCached(local_path(dir, name))
    } else {
        FetchPlanModel::Download(url, local_path(dir, name))
    }
}

pub open spec fn pom_plan(c: MavenRepoDependency, dir: Seq<char>, cached: bool) -> FetchPlanModel {
    plan_spec(
        dir,
        c.base_spec() + ".pom"@,
        c.repo.url@ + c.path_spec() + c.base_spec() + ".pom"@,
        cached,
    )
}

pub open spec fn jar_plan(c: MavenRepoDependency, dir: Seq<char>, present: bool) -> FetchPlanModel {
    plan_spec(
        dir,
        c.base_spec() + ".jar"@,
        c.repo.url@ + c.path_spec() + c.base_spec() + ".jar"@,
        present,
    )
}

/// Plan the loading of a coordinate's POM: from the on-disk cache when the
/// file `dir/artifact-version.pom` exists, else from the repository.
pub fn plan_pom_fetch(coord: &MavenRepoDependency, dir: &String, cached: bool) -> (r: FetchPlan)
    ensures
        r@ == pom_plan(*coord, dir@, cached),
{
    let path = join_path(dir, &coord.pom_name());
    if cached {
        FetchPlan::ReadCached { path }
    } else {
        FetchPlan::Download { url: coord.pom_url(), path }
    }
}

/// Plan the JAR of a coordinate: nothing to fetch when
/// `dir/artifact-version.jar` exists, else download it there.
pub fn plan_jar_fetch(coord: &MavenRepoDependency, dir: &String, present: bool) -> (r: FetchPlan)
    ensures
        r@ == jar_plan(*coord, dir@, present),
{
    let path = join_path(dir, &coord.jar_name());
    if present {
        FetchPlan::ReadCached { path }
    } else {
        let url = coord.jar_url();
        proof {
            assert(url@ =~= coord.repo.url@ + coord.path_spec() + coord.base_spec() + ".jar"@);
        }
        FetchPlan::Download { url, path }
    }
}

/// The coordinate of the parent of `pom`, served by `repo`.
pub fn parent_coordinate(pom: &MavenPom, repo: &MavenRepo) -> (r: Option<MavenRepoDependency>)
    ensures
        match pom.parent {
            Some(p) => r matches Some(c) && c.group@ == p.group_id@ && c.artifact@
                == p.artifact_id@ && c.version@ == p.version@ && c.repo == *repo,
            None => r is None,
        },
{
    match &pom.parent {
        Some(p) => Some(
            MavenRepoDependency {
                group: p.group_id.value.clone(),
                artifact: p.artifact_id.value.clone(),
                version: p.version.value.clone(),
                repo: repo.duplicate(),
            },
        ),
        None => None,
    }
}

/// The POM with its parent, if any, merged under it.
pub open spec fn with_parent(pom: PomModel, parent: Option<PomModel>) -> PomModel {
    match parent {
        Some(p) => pom_merge(p, pom),
        None => pom,
    }
}

pub open spec fn opt_pom(p: Option<MavenPom>) -> Option<PomModel> {
    match p {
        Some(x) => Some(x@),
        None => None,
    }
}

/// A POM of the main traversal: merged under its (already merged) parent,
/// then cleaned, as it is stored in the on-disk cache.
pub fn complete_main_pom(pom: MavenPom, parent: Option<MavenPom>) -> (r: MavenPom)
    ensures
        r@ == pom_clean(with_parent(pom@, opt_pom(parent))),
{
    let mut merged = match parent {
        Some(p) => p.merge(&pom),
        None => pom,
    };
    merged.clean();
    merged
}

/// A POM of a parent chain: merged under its parent, and kept raw for
/// further merging.
pub fn complete_parent_pom(pom: MavenPom, parent: Option<MavenPom>) -> (r: MavenPom)
    ensures
        r@ == with_parent(pom@, opt_pom(parent)),
{
    match parent {
        Some(p) => p.merge(&pom),
        None => pom,
    }
}

/// Fails with `Cycle` exactly when `key` is already among the ancestors
/// being fetched.
pub fn check_ancestors(ancestors: &Vec<String>, key: &String) -> (r: Result<(), ResolveError>)
    ensures
        r is Err <==> exists|i: int| 0 <= i < ancestors.len() && (#[trigger] ancestors@[i])@
            == key@,
        r is Err ==> r == Err::<(), ResolveError>(ResolveError::Cycle),
{
    let n = ancestors.len();
    for i in 0..n
        invariant
            n == ancestors.len(),
            forall|j: int| 0 <= j < i ==> (#[trigger] ancestors@[j])@ != key@,
    {
        if ancestors[i] == *key {
            return Err(ResolveError::Cycle);
        }
    }
    Ok(())
}

/// The coordinates that an explorer fans out to: one per dependency of the
/// cleaned POM, bound to the same repository. A dependency left without a
/// version makes the POM malformed.
pub fn child_coordinates(pom: &MavenPom, repo: &MavenRepo) -> (r: Result<
    Vec<MavenRepoDependency>,
    ResolveError,
>)
    ensures
        match pom.dependencies {
            Some(ds) => {
                let s = ds.dependencies@;
                match r {
                    Ok(v) => {
                        &&& forall|i: int| 0 <= i < s.len() ==> (#[trigger] s[i]).version is Some
                        &&& v.len() == s.len()
                        &&& forall|i: int|
                            0 <= i < s.len() ==> {
                                &&& (#[trigger] v@[i]).group@ == s[i].group_id@
                                &&& v@[i].artifact@ == s[i].artifact_id@
                                &&& v@[i].version@ == s[i].version->0@
                                &&& v@[i].repo == *repo
                            }
                    },
                    Err(e) => e == ResolveError::MalformedPom && exists|i: int|
                        0 <= i < s.len() && (#[trigger] s[i]).version is None,
                }
            },
            None => r matches Ok(v) && v.len() == 0,
        },
{
    let mut out: Vec<MavenRepoDependency> = Vec::new();
    match &pom.dependencies {
        Some(ds) => {
            let s = &ds.dependencies;
            let n = s.len();
            for i in 0..n
                invariant
                    n == s.len(),
                    pom.dependencies == Some(*ds),
                    *s == ds.dependencies,
                    out.len() == i,
                    forall|j: int| 0 <= j < i ==> (#[trigger] s@[j]).version is Some,
                    forall|j: int|
                        0 <= j < i ==> {
                            &&& (#[trigger] out@[j]).group@ == s@[j].group_id@
                            &&& out@[j].artifact@ == s@[j].artifact_id@
                            &&& out@[j].version@ == s@[j].version->0@
                            &&& out@[j].repo == *repo
                        },
            {
                let d = &s[i];
                match &d.version {
                    Some(v) => {
                        out.push(
                            MavenRepoDependency {
                                group: d.group_id.value.clone(),
                                artifact: d.artifact_id.value.clone(),
                                version: v.value.clone(),
                                repo: repo.duplicate(),
                            },
                        );
                    },
                    None => {
                        assert(s@[i as int].version is None);
                        return Err(ResolveError::MalformedPom);
                    },
                }
            }
            Ok(out)
        },
        None => Ok(out),
    }
}

/// The coordinates ordered by notation, one per notation: strictly
/// increasing notations, each taken from the input, and every input
/// notation present.
pub fn sorted_unique(coords: &Vec<MavenRepoDependency>) -> (r: Vec<MavenRepoDependency>)
    ensures
        strictly_sorted(notations(r@)),
        forall|i: int| 0 <= i < r.len() ==> coords@.contains(#[trigger] r@[i]),
        forall|j: int|
            0 <= j < coords.len() ==> notations(r@).contains(notation(#[trigger] coords@[j])),
{
    let mut out: Vec<MavenRepoDependency> = Vec::new();
    let mut keys: Vec<String> = Vec::new();
    let n = coords.len();
    for k in 0..n
        invariant
            n == coords.len(),
            keys.len() == out.len(),
            forall|i: int| 0 <= i < keys.len() ==> (#[trigger] keys@[i])@ == notation(out@[i]),
            strictly_sorted(notations(out@)),
            forall|i: int| 0 <= i < out.len() ==> coords@.contains(#[trigger] out@[i]),
            forall|j: int|
                0 <= j < k ==> notations(out@).contains(notation(#[trigger] coords@[j])),
    {
        let c = &coords[k];
        let key = c.dependency_notation();
        let ghost ns = notations(out@);
        proof {
            assert forall|i: int| 0 <= i < ns.len() implies #[trigger] ns[i] == keys@[i]@ by {}
        }
        let mut p: usize = 0;
        while p < keys.len() && text_less(&keys[p], &key)
            invariant
                p <= keys.len(),
                keys.len() == out.len(),
                ns == notations(out@),
                forall|i: int| 0 <= i < keys.len() ==> (#[trigger] keys@[i])@ == ns[i],
                forall|i: int| 0 <= i < p ==> text_lt(#[trigger] ns[i], key@),
            decreases keys.len() - p,
        {
            p += 1;
        }
        let ghost before = out@;
        if p < keys.len() && keys[p] == key {
            proof {
                assert(ns[p as int] == key@);
            }
        } else {
            proof {
                if p < keys.len() {
                    lemma_lt_total(key@, ns[p as int]);
                    assert(text_lt(key@, ns[p as int]));
                }
            }
            out.insert(p, c.duplicate());
            keys.insert(p, key);
            proof {
                let ns2 = notations(out@);
                assert(ns2 =~= ns.insert(p as int, notation(*c)));
                assert forall|i: int, j: int| 0 <= i < j < ns2.len() implies text_lt(
                    #[trigger] ns2[i],
                    #[trigger] ns2[j],
                ) by {
                    if j < p {
                        assert(text_lt(ns[i], ns[j]));
                    } else if j == p {
                        assert(text_lt(ns[i], key@));
                    } else if i < p {
                        assert(text_lt(ns[i], key@));
                        assert(text_lt(key@, ns[p as int]));
                        if j - 1 > p {
                            assert(text_lt(ns[p as int], ns[j - 1]));
                            lemma_lt_transitive(key@, ns[p as int], ns[j - 1]);
                        }
                        lemma_lt_transitive(ns[i], key@, ns[j - 1]);
                    } else if i == p {
                        assert(text_lt(key@, ns[p as int]));
                        if j - 1 > p {
                            assert(text_lt(ns[p as int], ns[j - 1]));
                            lemma_lt_transitive(key@, ns[p as int], ns[j - 1]);
                        }
                    } else {
                        assert(text_lt(ns[i - 1], ns[j - 1]));
                    }
                }
                assert forall|i: int| 0 <= i < out.len() implies coords@.contains(
                    #[trigger] out@[i],
                ) by {
                    if i < p {
                        assert(out@[i] == before[i]);
                    } else if i == p {
                        assert(coords@[k as int] == out@[i]);
                    } else {
                        assert(out@[i] == before[i - 1]);
                    }
                }
                assert forall|j: int| 0 <= j < k implies notations(out@).contains(
                    notation(#[trigger] coords@[j]),
                ) by {
                    assert(ns.contains(notation(coords@[j])));
                    let m = choose|m: int| 0 <= m < ns.len() && ns[m] == notation(coords@[j]);
                    if m < p {
                        assert(ns2[m] == ns[m]);
                    } else {
                        assert(ns2[m + 1] == ns[m]);
                    }
                }
                assert(ns2[p as int] == notation(coords@[k as int]));
            }
        }
        proof {
            assert(notations(out@).contains(notation(coords@[k as int])));
        }
    }
    out
}

/// The local JAR paths of the resolved coordinates, `dir/artifact-version.jar`,
/// ordered by notation and one per notation.
pub fn resolved_jar_paths(dir: &String, coords: &Vec<MavenRepoDependency>) -> (r: (
    Vec<MavenRepoDependency>,
    Vec<String>,
))
    ensures
        strictly_sorted(notations(r.0@)),
        forall|i: int| 0 <= i < r.0.len() ==> coords@.contains(#[trigger] r.0@[i]),
        forall|j: int|
            0 <= j < coords.len() ==> notations(r.0@).contains(notation(#[trigger] coords@[j])),
        r.1.len() == r.0.len(),
        forall|i: int|
            0 <= i < r.1.len() ==> (#[trigger] r.1@[i])@ == local_path(
                dir@,
                r.0@[i].base_spec() + ".jar"@,
            ),
{
    let sorted = sorted_unique(coords);
    let mut paths: Vec<String> = Vec::new();
    let n = sorted.len();
    for i in 0..n
        invariant
            n == sorted.len(),
            paths.len() == i,
            forall|j: int|
                0 <= j < i ==> (#[trigger] paths@[j])@ == local_path(
                    dir@,
                    sorted@[j].base_spec() + ".jar"@,
                ),
    {
        paths.push(join_path(dir, &sorted[i].jar_name()));
    }
    (sorted, paths)
}

/// Two resolutions whose coordinates carry the same notations list the
/// same notations, in the same order.
pub proof fn lemma_same_closure_same_order(
    a: Seq<MavenRepoDependency>,
    ra: Seq<MavenRepoDependency>,
    b: Seq<MavenRepoDependency>,
    rb: Seq<MavenRepoDependency>,
)
    requires
        forall|x: Seq<char>| notations(a).contains(x) <==> notations(b).contains(x),
        strictly_sorted(notations(ra)),
        forall|i: int| 0 <= i < ra.len() ==> a.contains(#[trigger] ra[i]),
        forall|j: int| 0 <= j < a.len() ==> notations(ra).contains(notation(#[trigger] a[j])),
        strictly_sorted(notations(rb)),
        forall|i: int| 0 <= i < rb.len() ==> b.contains(#[trigger] rb[i]),
        forall|j: int| 0 <= j < b.len() ==> notations(rb).contains(notation(#[trigger] b[j])),
    ensures
        notations(ra) == notations(rb),
{
    let na = notations(ra);
    let nb = notations(rb);
    assert forall|x: Seq<char>| na.contains(x) <==> nb.contains(x) by {
        if na.contains(x) {
            let i = choose|i: int| 0 <= i < na.len() && na[i] == x;
            assert(a.contains(ra[i]));
            let j = choose|j: int| 0 <= j < a.len() && a[j] == ra[i];
            assert(notations(a)[j] == x);
            assert(notations(b).contains(x));
            let m = choose|m: int| 0 <= m < notations(b).len() && notations(b)[m] == x;
            assert(nb.contains(notation(b[m])));
        }
        if nb.contains(x) {
            let i = choose|i: int| 0 <= i < nb.len() && nb[i] == x;
            assert(b.contains(rb[i]));
            let j = choose|j: int| 0 <= j < b.len() && b[j] == rb[i];
            assert(notations(b)[j] == x);
            assert(notations(a).contains(x));
            let m = choose|m: int| 0 <= m < notations(a).len() && notations(a)[m] == x;
            assert(na.contains(notation(a[m])));
        }
    }
    lemma_sorted_unique(na, nb);
}

/// With a coordinate's POM and JAR already on disk, neither is downloaded.
pub proof fn lemma_warm_cache_offline(c: MavenRepoDependency, dir: Seq<char>)
    ensures
        pom_plan(c, dir, true) is ReadCached,
        jar_plan(c, dir, true) is ReadCached,
{
}

} // verus!

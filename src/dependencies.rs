//! The dependencies that a module declares, by scope.

use vstd::prelude::*;
use crate::coordinate::{MavenRepo, MavenRepoDependency};
use crate::manifest::{def_parts, CompleteDependencyDef, DependenciesDef, DependencyDef};
use crate::properties::string_of;
use crate::text::chars_of;

verus! {

/// What `semver` makes of a version requirement: the text of its first
/// comparator (operator then version), or `None` when the requirement does
/// not parse or has no comparator.
pub uninterp spec fn first_comparator(req: Seq<char>) -> Option<Seq<char>>;

/// Relies on `semver::VersionReq::parse` and the `Display` of its first
/// comparator.
#[verifier::external_body]
fn first_comparator_text(req: &str) -> (r: Option<String>)
    ensures
        match r {
            Some(s) => first_comparator(req@) == Some(s@),
            None => first_comparator(req@) is None,
        },
{
    match semver::VersionReq::parse(req) {
        Ok(v) => match v.comparators.first() {
            Some(c) => Some(c.to_string()),
            None => None,
        },
        Err(_) => None,
    }
}

/// The version that a requirement pins: its first comparator without the
/// leading operator character.
pub open spec fn pinned_version(req: Seq<char>) -> Option<Seq<char>> {
    match first_comparator(req) {
        Some(c) => if c.len() > 0 {
            Some(c.drop_first())
        } else {
            None
        },
        None => None,
    }
}

#[derive(Debug, Clone)]
pub struct JcargoGitDependency {
    /// Repository url
    url: String,
    /// Repo branch or tag
    /// Defaults to master or main
    branch: String,
    /// Commit to fetch
    /// Defaults to latest
    commit: String,
    /// Subdirectory to include as a dependency
    dir: String,
}

#[derive(Debug, Clone)]
pub struct JcargoLocalDependency {
    path: String,
}

#[derive(Debug, Clone)]
pub struct PrebuiltLocalDependency {
    path: String,
}

#[derive(Debug, Clone)]
pub enum Dependency {
    /// Dependency on a library from a maven repo
    MavenRepo(MavenRepoDependency),
    /// Dependency on another jcargo project in a git repository
    JcargoGit(JcargoGitDependency),
    /// Dependency on another local jcargo project
    JcargoLocal(JcargoLocalDependency),
    /// Dependency on a local compiled jar
    PrebuiltLocal(PrebuiltLocalDependency),
}

impl Dependency {
    /// A dependency on the artifact that a definition names, served by
    /// `repo`; `None` when its version requirement pins no version.
    pub fn from_def(dd: CompleteDependencyDef, repo: &MavenRepo) -> (r: Option<Dependency>)
        ensures
            match pinned_version(dd.version@) {
                Some(v) => r matches Some(Dependency::MavenRepo(m)) && m.group == dd.group
                    && m.artifact == dd.artifact && m.version@ == v && m.repo == *repo,
                None => r is None,
            },
    {
        match first_comparator_text(dd.version.as_str()) {
            Some(c) => {
                let cs = chars_of(c.as_str());
                if cs.len() == 0 {
                    return None;
                }
                let version = string_of(&cs, 1, cs.len());
                proof {
                    assert(cs@.subrange(1, cs@.len() as int) =~= cs@.drop_first());
                }
                Some(
                    Dependency::MavenRepo(
                        MavenRepoDependency {
                            group: dd.group,
                            artifact: dd.artifact,
                            version,
                            repo: repo.duplicate(),
                        },
                    ),
                )
            },
            None => None,
        }
    }

    /// `libs/artifact-version.jar`, the path of a repository dependency
    /// relative to the module.
    pub fn classpath(&self) -> (r: String)
        requires
            self is MavenRepo,
        ensures
            r@ == "libs/"@ + (self->MavenRepo_0).base_spec() + ".jar"@,
    {
        match self {
            Dependency::MavenRepo(repodep) => {
                let mut r = "libs/".to_owned();
                r.append(repodep.jar_name().as_str());
                r
            },
            _ => String::new(),
        }
    }
}

#[derive(Debug, Clone)]
pub struct Dependencies {
    pub compile: Vec<Dependency>,
    pub runtime: Vec<Dependency>,
    pub compile_runtime: Vec<Dependency>,
    pub transitive: Vec<Dependency>,
}

/// The repository dependency that definition `d` gives, served by `repo`.
pub open spec fn def_gives(d: DependencyDef, m: MavenRepoDependency, repo: MavenRepo) -> bool {
    match def_parts(d) {
        Some((g, a, v)) => m.group@ == g && m.artifact@ == a && pinned_version(v) == Some(
            m.version@,
        ) && m.repo == repo,
        None => false,
    }
}

/// Definition `d` names a group, artifact and a version requirement that
/// pins a version.
pub open spec fn def_ok(d: DependencyDef) -> bool {
    match def_parts(d) {
        Some((g, a, v)) => pinned_version(v) is Some,
        None => false,
    }
}

/// The dependencies that definitions give, in order; `None` when one of
/// them is malformed or pins no version.
pub open spec fn defs_give(defs: Seq<DependencyDef>, deps: Seq<Dependency>, repo: MavenRepo) -> bool {
    deps.len() == defs.len() && forall|i: int|
        0 <= i < defs.len() ==> (#[trigger] deps[i] matches Dependency::MavenRepo(m) && def_gives(
            defs[i],
            m,
            repo,
        ))
}

fn defs_to_deps(defs: &Vec<DependencyDef>, repo: &MavenRepo) -> (r: Option<Vec<Dependency>>)
    ensures
        r is Some <==> forall|i: int| 0 <= i < defs.len() ==> def_ok(#[trigger] defs@[i]),
        r matches Some(v) ==> defs_give(defs@, v@, *repo),
{
    let mut out: Vec<Dependency> = Vec::new();
    let n = defs.len();
    for i in 0..n
        invariant
            n == defs.len(),
            forall|j: int| 0 <= j < i ==> def_ok(#[trigger] defs@[j]),
            defs_give(defs@.take(i as int), out@, *repo),
    {
        let ghost d = defs@[i as int];
        match defs[i].to_complete() {
            Some(c) => match Dependency::from_def(c, repo) {
                Some(x) => {
                    let ghost prev = out@;
                    out.push(x);
                    proof {
                        assert(defs@.take(i + 1) =~= defs@.take(i as int).push(d));
                        assert forall|j: int| 0 <= j < i + 1 implies (#[trigger] out@[j] matches Dependency::MavenRepo(m) && def_gives(
                            defs@.take(i + 1)[j],
                            m,
                            *repo,
                        )) by {
                            if j < i {
                                assert(out@[j] == prev[j]);
                                assert(defs@.take(i + 1)[j] == defs@.take(i as int)[j]);
                            }
                        }
                    }
                },
                None => {
                    assert(!def_ok(defs@[i as int]));
                    return None;
                },
            },
            None => {
                assert(!def_ok(defs@[i as int]));
                return None;
            },
        }
    }
    proof {
        assert(defs@.take(n as int) =~= defs@);
    }
    Some(out)
}

fn push_refs<'a>(out: &mut Vec<&'a Dependency>, v: &'a Vec<Dependency>)
    ensures
        final(out)@.len() == old(out)@.len() + v@.len(),
        forall|i: int| 0 <= i < old(out)@.len() ==> final(out)@[i] == old(out)@[i],
        forall|i: int| 0 <= i < v@.len() ==> *final(out)@[old(out)@.len() + i] == v@[i],
{
    let ghost start = out@;
    let n = v.len();
    for i in 0..n
        invariant
            n == v.len(),
            out@.len() == start.len() + i,
            forall|j: int| 0 <= j < start.len() ==> out@[j] == start[j],
            forall|j: int| 0 <= j < i ==> *out@[start.len() + j] == v@[j],
    {
        out.push(&v[i]);
    }
}

/// The references of `r` point at the elements of `s`, in order.
pub open spec fn refs_of(r: Seq<&Dependency>, s: Seq<Dependency>) -> bool {
    r.len() == s.len() && forall|i: int| 0 <= i < s.len() ==> *r[i] == s[i]
}

impl Dependencies {
    /// The dependencies that a manifest declares, served by `repo`, scope
    /// by scope; `None` when one of them is malformed or pins no version.
    pub fn from_def(dd: DependenciesDef, repo: &MavenRepo) -> (r: Option<Dependencies>)
        ensures
            r is Some <==> ({
                &&& forall|i: int| 0 <= i < dd.compile.len() ==> def_ok(#[trigger] dd.compile@[i])
                &&& forall|i: int| 0 <= i < dd.runtime.len() ==> def_ok(#[trigger] dd.runtime@[i])
                &&& forall|i: int|
                    0 <= i < dd.compile_runtime.len() ==> def_ok(#[trigger] dd.compile_runtime@[i])
                &&& forall|i: int|
                    0 <= i < dd.transitive.len() ==> def_ok(#[trigger] dd.transitive@[i])
            }),
            r matches Some(d) ==> {
                &&& defs_give(dd.compile@, d.compile@, *repo)
                &&& defs_give(dd.runtime@, d.runtime@, *repo)
                &&& defs_give(dd.compile_runtime@, d.compile_runtime@, *repo)
                &&& defs_give(dd.transitive@, d.transitive@, *repo)
            },
    {
        let compile = defs_to_deps(&dd.compile, repo);
        let runtime = defs_to_deps(&dd.runtime, repo);
        let compile_runtime = defs_to_deps(&dd.compile_runtime, repo);
        let transitive = defs_to_deps(&dd.transitive, repo);
        match (compile, runtime, compile_runtime, transitive) {
            (Some(compile), Some(runtime), Some(compile_runtime), Some(transitive)) => Some(
                Dependencies { compile, runtime, compile_runtime, transitive },
            ),
            _ => None,
        }
    }

    /// All dependencies: compile, runtime, compile-runtime, then transitive.
    pub fn iter(&self) -> (r: Vec<&Dependency>)
        ensures
            refs_of(r@, self.compile@ + self.runtime@ + self.compile_runtime@ + self.transitive@),
    {
        let mut r: Vec<&Dependency> = Vec::new();
        push_refs(&mut r, &self.compile);
        push_refs(&mut r, &self.runtime);
        push_refs(&mut r, &self.compile_runtime);
        push_refs(&mut r, &self.transitive);
        r
    }

    /// The dependencies available at compile time: compile,
    /// compile-runtime, then transitive.
    pub fn iter_compile(&self) -> (r: Vec<&Dependency>)
        ensures
            refs_of(r@, self.compile@ + self.compile_runtime@ + self.transitive@),
    {
        let mut r: Vec<&Dependency> = Vec::new();
        push_refs(&mut r, &self.compile);
        push_refs(&mut r, &self.compile_runtime);
        push_refs(&mut r, &self.transitive);
        r
    }

    /// The dependencies available at runtime: runtime, compile-runtime,
    /// then transitive.
    pub fn iter_runtime(&self) -> (r: Vec<&Dependency>)
        ensures
            refs_of(r@, self.runtime@ + self.compile_runtime@ + self.transitive@),
    {
        let mut r: Vec<&Dependency> = Vec::new();
        push_refs(&mut r, &self.runtime);
        push_refs(&mut r, &self.compile_runtime);
        push_refs(&mut r, &self.transitive);
        r
    }

    /// Total number of dependencies, all scopes
    pub fn len(&self) -> (r: usize)
        requires
            self.compile.len() + self.runtime.len() + self.compile_runtime.len()
                + self.transitive.len() <= usize::MAX,
        ensures
            r == self.compile.len() + self.runtime.len() + self.compile_runtime.len()
                + self.transitive.len(),
    {
        self.compile.len() + self.runtime.len() + self.compile_runtime.len() + self.transitive.len()
    }
}

} // verus!

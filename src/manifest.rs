//! The module manifest: what a project declares about itself and its
//! dependencies. Reading it from TOML is the application's part.

use vstd::prelude::*;
use crate::coordinate::group_path;
use crate::properties::string_of;
use crate::search::first_from;
use crate::text::chars_of;

verus! {

/// Root of the manifest document.
#[derive(Debug)]
pub struct ModuleManifest {
    // Group can be inferred from the root manifest
    pub group: Option<String>,
    pub artifact: String,
    pub version: String,
    pub base_package: String,
    pub extra_info: ExtraInfo,
    // May be a library
    pub entrypoints: Vec<EntrypointDef>,
    // No dependencies is ok
    pub dependencies: DependenciesDef,
}

#[derive(Debug, Default)]
pub struct ExtraInfo {
    pub authors: Vec<String>,
    pub license: String,
}

#[derive(Debug)]
pub struct EntrypointDef {
    /// Name used when invoking the run task
    pub name: String,
    /// Fully qualified name of the main class to launch
    pub class: String,
}

impl EntrypointDef {
    /// An entrypoint name may not hold a space.
    pub fn validate(&self) -> (r: bool)
        ensures
            r == !self.name@.contains(' '),
    {
        let c = chars_of(self.name.as_str());
        let n = c.len();
        for i in 0..n
            invariant
                n == c.len(),
                c@ == self.name@,
                forall|j: int| 0 <= j < i ==> c@[j] != ' ',
        {
            if c[i] == ' ' {
                return false;
            }
        }
        true
    }
}

impl ModuleManifest {
    /// Take the group from the parent manifest when this one has none.
    pub fn inherit_from(&mut self, parent: Option<&ModuleManifest>)
        ensures
            final(self).group == match (old(self).group, parent) {
                (None, Some(p)) => p.group,
                _ => old(self).group,
            },
            final(self).artifact == old(self).artifact,
            final(self).version == old(self).version,
    {
        match parent {
            Some(p) => {
                if self.group.is_none() {
                    self.group = p.group.clone();
                }
            },
            None => {},
        }
    }

    /// The manifest is valid when every entrypoint is.
    pub fn validate(&self) -> (r: bool)
        ensures
            r == forall|i: int|
                0 <= i < self.entrypoints.len() ==> !(#[trigger] self.entrypoints@[i]).name@.contains(
                    ' ',
                ),
    {
        let n = self.entrypoints.len();
        for i in 0..n
            invariant
                n == self.entrypoints.len(),
                forall|j: int|
                    0 <= j < i ==> !(#[trigger] self.entrypoints@[j]).name@.contains(' '),
        {
            if !self.entrypoints[i].validate() {
                return false;
            }
        }
        true
    }
}

/// The index of the entrypoint called `name`; failing that, of the first
/// whose class is `name`.
pub fn find_entrypoint(entrypoints: &Vec<EntrypointDef>, name: &str) -> (r: Option<usize>)
    ensures
        match r {
            Some(i) => i < entrypoints.len() && ((entrypoints@[i as int].name@ == name@
                && forall|j: int| 0 <= j < i ==> (#[trigger] entrypoints@[j]).name@ != name@) || ((
            forall|j: int|
                0 <= j < entrypoints.len() ==> (#[trigger] entrypoints@[j]).name@ != name@)
                && entrypoints@[i as int].class@ == name@ && forall|j: int|
                0 <= j < i ==> (#[trigger] entrypoints@[j]).class@ != name@)),
            None => forall|j: int|
                0 <= j < entrypoints.len() ==> (#[trigger] entrypoints@[j]).name@ != name@
                    && entrypoints@[j].class@ != name@,
        },
{
    let target = name.to_owned();
    let n = entrypoints.len();
    for i in 0..n
        invariant
            n == entrypoints.len(),
            target@ == name@,
            forall|j: int| 0 <= j < i ==> (#[trigger] entrypoints@[j]).name@ != name@,
    {
        if entrypoints[i].name == target {
            return Some(i);
        }
    }
    for i in 0..n
        invariant
            n == entrypoints.len(),
            target@ == name@,
            forall|j: int| 0 <= j < n ==> (#[trigger] entrypoints@[j]).name@ != name@,
            forall|j: int| 0 <= j < i ==> (#[trigger] entrypoints@[j]).class@ != name@,
    {
        if entrypoints[i].class == target {
            return Some(i);
        }
    }
    None
}

#[derive(Debug, Default)]
pub struct DependenciesDef {
    pub compile: Vec<DependencyDef>,
    pub runtime: Vec<DependencyDef>,
    pub compile_runtime: Vec<DependencyDef>,
    pub transitive: Vec<DependencyDef>,
}

/// A dependency as written: `group:artifact:version`, or its three parts.
#[derive(Debug)]
pub enum DependencyDef {
    ShortNotation(String),
    CompleteNotation(CompleteDependencyDef),
}

#[derive(Debug, Clone)]
pub struct CompleteDependencyDef {
    pub group: String,
    pub artifact: String,
    pub version: String,
}

/// The index of the first `:` at or after `k`.
pub open spec fn colon_from(s: Seq<char>, k: int) -> Option<int> {
    first_from(k, s.len() as int, |i: int| s[i] == ':')
}

/// The three first `:`-separated pieces of a short notation; `None` when it
/// has fewer than three.
pub open spec fn split_notation(s: Seq<char>) -> Option<(Seq<char>, Seq<char>, Seq<char>)> {
    match colon_from(s, 0) {
        Some(i) => match colon_from(s, i + 1) {
            Some(j) => {
                let end = match colon_from(s, j + 1) {
                    Some(k) => k,
                    None => s.len() as int,
                };
                Some((s.subrange(0, i), s.subrange(i + 1, j), s.subrange(j + 1, end)))
            },
            None => None,
        },
        None => None,
    }
}

fn find_colon(c: &Vec<char>, from: usize) -> (r: Option<usize>)
    requires
        from <= c.len(),
    ensures
        match r {
            Some(i) => colon_from(c@, from as int) == Some(i as int) && i < c.len(),
            None => colon_from(c@, from as int) is None,
        },
{
    let ghost p = |i: int| c@[i] == ':';
    let mut i = from;
    while i < c.len()
        invariant
            from <= i <= c.len(),
            p == (|i: int| c@[i] == ':'),
            forall|j: int| from <= j < i ==> !#[trigger] p(j),
        decreases c.len() - i,
    {
        if c[i] == ':' {
            proof {
                crate::search::lemma_first_from_found(from as int, c.len() as int, p, i as int);
            }
            return Some(i);
        }
        i += 1;
    }
    proof {
        crate::search::lemma_first_from_none(from as int, c.len() as int, p);
    }
    None
}

/// The group, artifact and version that a definition names, if it names
/// all three.
pub open spec fn def_parts(d: DependencyDef) -> Option<(Seq<char>, Seq<char>, Seq<char>)> {
    match d {
        DependencyDef::ShortNotation(s) => split_notation(s@),
        DependencyDef::CompleteNotation(c) => Some((c.group@, c.artifact@, c.version@)),
    }
}

impl DependencyDef {
    /// The complete form of this definition; `None` for a short notation
    /// with fewer than three pieces.
    pub fn to_complete(&self) -> (r: Option<CompleteDependencyDef>)
        ensures
            match def_parts(*self) {
                Some((g, a, v)) => r matches Some(c) && c.group@ == g && c.artifact@ == a
                    && c.version@ == v,
                None => r is None,
            },
    {
        match self {
            DependencyDef::ShortNotation(full) => CompleteDependencyDef::from_def(
                DependencyDef::ShortNotation(full.clone()),
            ),
            DependencyDef::CompleteNotation(c) => Some(
                CompleteDependencyDef {
                    group: c.group.clone(),
                    artifact: c.artifact.clone(),
                    version: c.version.clone(),
                },
            ),
        }
    }
}

impl CompleteDependencyDef {
    /// The complete form of a dependency definition; a short notation with
    /// fewer than three `:`-separated pieces gives `None`.
    pub fn from_def(dd: DependencyDef) -> (r: Option<CompleteDependencyDef>)
        ensures
            match dd {
                DependencyDef::ShortNotation(s) => match split_notation(s@) {
                    Some((g, a, v)) => r matches Some(c) && c.group@ == g && c.artifact@ == a
                        && c.version@ == v,
                    None => r is None,
                },
                DependencyDef::CompleteNotation(c) => r == Some(c),
            },
    {
        match dd {
            DependencyDef::ShortNotation(full) => {
                let c = chars_of(full.as_str());
                match find_colon(&c, 0) {
                    Some(i) => match find_colon(&c, i + 1) {
                        Some(j) => {
                            let end = match find_colon(&c, j + 1) {
                                Some(k) => k,
                                None => c.len(),
                            };
                            Some(
                                CompleteDependencyDef {
                                    group: string_of(&c, 0, i),
                                    artifact: string_of(&c, i + 1, j),
                                    version: string_of(&c, j + 1, end),
                                },
                            )
                        },
                        None => None,
                    },
                    None => None,
                }
            },
            DependencyDef::CompleteNotation(complete) => Some(complete),
        }
    }

    /// `group/with/slashes/artifact/version`.
    pub fn get_path(&self) -> (r: String)
        ensures
            r@ == group_path(self.group@) + seq!['/'] + self.artifact@ + seq!['/'] + self.version@,
    {
        let g = chars_of(self.group.as_str());
        let mut r = String::new();
        let n = g.len();
        for i in 0..n
            invariant
                n == g.len(),
                g@ == self.group@,
                r@ == group_path(g@.take(i as int)),
        {
            let c = g[i];
            r.push(if c == '.' { '/' } else { c });
            proof {
                assert(group_path(g@.take(i + 1)) =~= group_path(g@.take(i as int)).push(
                    if c == '.' { '/' } else { c },
                ));
            }
        }
        proof {
            assert(g@.take(n as int) =~= g@);
        }
        r.push('/');
        r.append(self.artifact.as_str());
        r.push('/');
        r.append(self.version.as_str());
        proof {
            assert(r@ =~= group_path(self.group@) + seq!['/'] + self.artifact@ + seq!['/']
                + self.version@);
        }
        r
    }

    /// `artifact-version.jar`.
    pub fn get_file(&self) -> (r: String)
        ensures
            r@ == self.artifact@ + seq!['-'] + self.version@ + ".jar"@,
    {
        let mut r = self.artifact.clone();
        r.push('-');
        r.append(self.version.as_str());
        r.append(".jar");
        r
    }

    /// `group:artifact:version`.
    pub fn notation(&self) -> (r: String)
        ensures
            r@ == crate::coordinate::notation_of(self.group@, self.artifact@, self.version@),
    {
        let mut r = self.group.clone();
        r.push(':');
        r.append(self.artifact.as_str());
        r.push(':');
        r.append(self.version.as_str());
        proof {
            assert(r@ =~= crate::coordinate::notation_of(self.group@, self.artifact@, self.version@));
        }
        r
    }
}

} // verus!

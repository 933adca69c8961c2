//! The project object model: dependencies, dependency management and the
//! inheritance algebra that merges a child POM over its parent.

use vstd::prelude::*;
use crate::search::{first_from, lemma_first_from_found, lemma_first_from_none};
use crate::properties::{Properties, resolve, opt_text};


verus! {

/// An XML element that carries only a text body.
#[derive(Clone, Debug, PartialEq, Eq)]
pub struct Element {
    pub value: String,
}

impl View for Element {
    type V = Seq<char>;

    open spec fn view(&self) -> Seq<char> {
        self.value@
    }
}

impl Element {
    pub fn new(value: String) -> (r: Element)
        ensures
            r@ == value@,
    {
        Element { value }
    }

    pub fn duplicate(&self) -> (r: Element)
        ensures
            r@ == self@,
    {
        Element { value: self.value.clone() }
    }
}

/// The text of an optional element.
pub open spec fn text_of(e: Option<Element>) -> Option<Seq<char>> {
    match e {
        Some(x) => Some(x@),
        None => None,
    }
}

pub fn duplicate_opt(e: &Option<Element>) -> (r: Option<Element>)
    ensures
        text_of(r) == text_of(*e),
{
    match e {
        Some(x) => Some(x.duplicate()),
        None => None,
    }
}

/// `a` if present, else `b`.
pub open spec fn or_else<T>(a: Option<T>, b: Option<T>) -> Option<T> {
    if a is Some {
        a
    } else {
        b
    }
}

fn or_else_elem(a: &Option<Element>, b: &Option<Element>) -> (r: Option<Element>)
    ensures
        text_of(r) == or_else(text_of(*a), text_of(*b)),
{
    if a.is_some() {
        duplicate_opt(a)
    } else {
        duplicate_opt(b)
    }
}

/// Scope of a dependency; an absent scope means `Compile`.
#[derive(Clone, Copy, Debug, PartialEq, Eq, Structural)]
pub enum MavenDependencyScope {
    Compile,
    Runtime,
    Test,
    Provided,
}

/// The `<scope>` element of a dependency.
#[derive(Clone, Copy, Debug, PartialEq, Eq, Structural)]
pub struct DependencyScope {
    pub value: MavenDependencyScope,
}

pub open spec fn scope_of(s: Option<DependencyScope>) -> Option<MavenDependencyScope> {
    match s {
        Some(x) => Some(x.value),
        None => None,
    }
}

/// What a dependency is, as plain values.
pub ghost struct DepModel {
    pub group_id: Seq<char>,
    pub artifact_id: Seq<char>,
    pub version: Option<Seq<char>>,
    pub scope: Option<MavenDependencyScope>,
    pub dep_type: Option<Seq<char>>,
    pub optional: Option<bool>,
}

/// One dependency of a POM.
#[derive(Clone, Debug, PartialEq, Eq)]
pub struct PomDependency {
    pub group_id: Element,
    pub artifact_id: Element,
    pub version: Option<Element>,
    pub scope: Option<DependencyScope>,
    pub dep_type: Option<Element>,
    pub optional: Option<bool>,
}

impl View for PomDependency {
    type V = DepModel;

    open spec fn view(&self) -> DepModel {
        DepModel {
            group_id: self.group_id@,
            artifact_id: self.artifact_id@,
            version: text_of(self.version),
            scope: scope_of(self.scope),
            dep_type: text_of(self.dep_type),
            optional: self.optional,
        }
    }
}

/// Whether two dependencies name the same `groupId:artifactId`.
pub open spec fn same_coords(a: DepModel, b: DepModel) -> bool {
    a.group_id == b.group_id && a.artifact_id == b.artifact_id
}

/// Field-wise merge of `child` over `parent`: present child fields win.
pub open spec fn dep_merge(parent: DepModel, child: DepModel) -> DepModel {
    DepModel {
        group_id: child.group_id,
        artifact_id: child.artifact_id,
        version: or_else(child.version, parent.version),
        scope: or_else(child.scope, parent.scope),
        dep_type: or_else(child.dep_type, parent.dep_type),
        optional: or_else(child.optional, parent.optional),
    }
}

/// The effective scope: an absent scope is `Compile`.
pub open spec fn effective_scope(d: DepModel) -> MavenDependencyScope {
    match d.scope {
        Some(s) => s,
        None => MavenDependencyScope::Compile,
    }
}

/// Whether a dependency propagates to dependents: compile or runtime
/// scope, and not optional.
pub open spec fn propagates(d: DepModel) -> bool {
    (effective_scope(d) == MavenDependencyScope::Compile || effective_scope(d)
        == MavenDependencyScope::Runtime) && d.optional != Some(true)
}

/// The first index in `s` of a dependency with the coordinates of `d`.
pub open spec fn coords_index(s: Seq<DepModel>, d: DepModel) -> Option<int> {
    first_from(0, s.len() as int, |i: int| same_coords(s[i], d))
}

/// Merge one child dependency into a list: into the first entry with the
/// same coordinates, or appended.
pub open spec fn merge_one(s: Seq<DepModel>, d: DepModel) -> Seq<DepModel> {
    match coords_index(s, d) {
        Some(i) => s.update(i, dep_merge(s[i], d)),
        None => s.push(d),
    }
}

/// The child list folded, in order, into the parent list.
pub open spec fn merge_deps(parent: Seq<DepModel>, child: Seq<DepModel>) -> Seq<DepModel>
    decreases child.len(),
{
    if child.len() == 0 {
        parent
    } else {
        merge_one(merge_deps(parent, child.drop_last()), child.last())
    }
}

/// A dependency completed from the management rules: absent fields are
/// taken from the first rule with the same coordinates.
pub open spec fn dep_apply(d: DepModel, rules: Seq<DepModel>) -> DepModel {
    match coords_index(rules, d) {
        Some(i) => dep_merge(rules[i], d),
        None => d,
    }
}

impl PomDependency {
    pub fn duplicate(&self) -> (r: PomDependency)
        ensures
            r@ == self@,
    {
        PomDependency {
            group_id: self.group_id.duplicate(),
            artifact_id: self.artifact_id.duplicate(),
            version: duplicate_opt(&self.version),
            scope: self.scope,
            dep_type: duplicate_opt(&self.dep_type),
            optional: self.optional,
        }
    }

    /// Merge 2 dependencies (they should be the same group:artifact):
    /// `new` is applied onto `self`.
    pub fn merge(&self, new: &PomDependency) -> (r: PomDependency)
        ensures
            r@ == dep_merge(self@, new@),
    {
        PomDependency {
            group_id: new.group_id.duplicate(),
            artifact_id: new.artifact_id.duplicate(),
            version: or_else_elem(&new.version, &self.version),
            scope: if new.scope.is_some() { new.scope } else { self.scope },
            dep_type: or_else_elem(&new.dep_type, &self.dep_type),
            optional: if new.optional.is_some() { new.optional } else { self.optional },
        }
    }

    pub fn same_coords(&self, other: &PomDependency) -> (r: bool)
        ensures
            r == same_coords(self@, other@),
    {
        self.group_id.value == other.group_id.value && self.artifact_id.value
            == other.artifact_id.value
    }

    /// Complete a dependency's absent fields from the given management rules.
    pub fn apply_rules(&self, rules: &DependencyManagement) -> (r: PomDependency)
        ensures
            r@ == dep_apply(self@, rules.dependencies@),
    {
        match index_of_coords(&rules.dependencies.dependencies, self) {
            Some(i) => rules.dependencies.dependencies[i].merge(self),
            None => self.duplicate(),
        }
    }
}

/// The views of a list of dependencies.
pub open spec fn deps_view(v: Seq<PomDependency>) -> Seq<DepModel> {
    v.map_values(|d: PomDependency| d@)
}

/// Index of the first dependency in `v` with the coordinates of `d`.
pub fn index_of_coords(v: &Vec<PomDependency>, d: &PomDependency) -> (r: Option<usize>)
    ensures
        match r {
            Some(i) => coords_index(deps_view(v@), d@) == Some(i as int),
            None => coords_index(deps_view(v@), d@) is None,
        },
{
    let ghost s = deps_view(v@);
    let ghost p = |i: int| same_coords(s[i], d@);
    let mut i: usize = 0;
    while i < v.len()
        invariant
            0 <= i <= v.len(),
            s == deps_view(v@),
            p == (|i: int| same_coords(s[i], d@)),
            forall|j: int| 0 <= j < i ==> !#[trigger] p(j),
        decreases v.len() - i,
    {
        if v[i].same_coords(d) {
            proof {
                assert(p(i as int));
                lemma_first_from_found(0, s.len() as int, p, i as int);
            }
            return Some(i);
        }
        i += 1;
    }
    proof {
        lemma_first_from_none(0, s.len() as int, p);
    }
    None
}

/// A list of dependencies (`<dependencies>`).
#[derive(Clone, Debug, PartialEq, Eq)]
pub struct PomDependencies {
    pub dependencies: Vec<PomDependency>,
}

impl View for PomDependencies {
    type V = Seq<DepModel>;

    open spec fn view(&self) -> Seq<DepModel> {
        deps_view(self.dependencies@)
    }
}

impl PomDependencies {
    pub fn duplicate(&self) -> (r: PomDependencies)
        ensures
            r@ == self@,
    {
        let mut out: Vec<PomDependency> = Vec::new();
        let n = self.dependencies.len();
        for k in 0..n
            invariant
                n == self.dependencies.len(),
                deps_view(out@) == deps_view(self.dependencies@.take(k as int)),
        {
            let ghost prev = out@;
            let x = self.dependencies[k].duplicate();
            out.push(x);
            proof {
                assert(deps_view(self.dependencies@.take(k + 1)) =~= deps_view(
                    self.dependencies@.take(k as int),
                ).push(x@));
                assert(deps_view(out@) =~= deps_view(prev).push(x@));
            }
        }
        proof {
            assert(self.dependencies@.take(n as int) =~= self.dependencies@);
        }
        PomDependencies { dependencies: out }
    }

    /// Merge the child's dependencies `new` over these.
    pub fn merge(&self, new: &PomDependencies) -> (r: PomDependencies)
        ensures
            r@ == merge_deps(self@, new@),
    {
        let mut dependencies = self.duplicate();
        let n = new.dependencies.len();
        for k in 0..n
            invariant
                n == new.dependencies.len(),
                dependencies@ == merge_deps(self@, new@.take(k as int)),
        {
            let new_dep = &new.dependencies[k];
            let ghost before = dependencies@;
            match index_of_coords(&dependencies.dependencies, new_dep) {
                Some(i) => {
                    // Dependency was already included, we just update it
                    let merged = dependencies.dependencies[i].merge(new_dep);
                    dependencies.dependencies.set(i, merged);
                    proof {
                        assert(dependencies@ =~= before.update(i as int, dep_merge(before[i as int], new_dep@)));
                    }
                },
                None => {
                    dependencies.dependencies.push(new_dep.duplicate());
                    proof {
                        assert(dependencies@ =~= before.push(new_dep@));
                    }
                },
            }
            proof {
                assert(new@.take(k + 1).drop_last() =~= new@.take(k as int));
                assert(new@.take(k + 1).last() == new_dep@);
            }
        }
        proof {
            assert(new@.take(n as int) =~= new@);
        }
        dependencies
    }

    /// Expand the placeholders in each dependency's version.
    pub fn apply_properties(&mut self, properties: &Properties, project_version: &Option<String>)
        ensures
            final(self)@ == old(self)@.map_values(
                |d: DepModel| dep_resolve(d, properties@, opt_text(*project_version)),
            ),
    {
        let ghost g = |d: DepModel| dep_resolve(d, properties@, opt_text(*project_version));
        let ghost start = self@;
        let n = self.dependencies.len();
        for k in 0..n
            invariant
                n == self.dependencies.len(),
                start.len() == n,
                g == (|d: DepModel| dep_resolve(d, properties@, opt_text(*project_version))),
                forall|j: int| 0 <= j < k ==> #[trigger] self@[j] == g(start[j]),
                forall|j: int| k <= j < n ==> #[trigger] self@[j] == start[j],
        {
            let d = &self.dependencies[k];
            let version = match &d.version {
                Some(v) => Some(Element::new(properties.recurse_resolve(v.value.as_str(), project_version))),
                None => None,
            };
            let mut nd = d.duplicate();
            nd.version = version;
            proof {
                assert(self@[k as int] == start[k as int]);
                assert(nd@ == g(start[k as int]));
            }
            let ghost before = self@;
            let ghost ndv = nd@;
            self.dependencies.set(k, nd);
            proof {
                assert(self@ =~= before.update(k as int, ndv));
            }
        }
        proof {
            assert(self@ =~= start.map_values(g));
        }
    }

    /// Complete each dependency from the management rules.
    pub fn apply_rules(&self, rules: &DependencyManagement) -> (r: PomDependencies)
        ensures
            r@ == self@.map_values(|d: DepModel| dep_apply(d, rules.dependencies@)),
    {
        let mut new_deps = PomDependencies { dependencies: Vec::with_capacity(self.dependencies.len()) };
        let n = self.dependencies.len();
        for k in 0..n
            invariant
                n == self.dependencies.len(),
                new_deps@ == self@.take(k as int).map_values(
                    |d: DepModel| dep_apply(d, rules.dependencies@),
                ),
        {
            let ghost prev = new_deps@;
            let x = self.dependencies[k].apply_rules(rules);
            new_deps.dependencies.push(x);
            proof {
                let f = |d: DepModel| dep_apply(d, rules.dependencies@);
                assert(self@.take(k + 1) =~= self@.take(k as int).push(self@[k as int]));
                assert(self@.take(k + 1).map_values(f) =~= self@.take(k as int).map_values(f).push(
                    x@,
                ));
                assert(new_deps@ =~= prev.push(x@));
            }
        }
        proof {
            assert(self@.take(n as int) =~= self@);
        }
        new_deps
    }
}

/// Dependency management (`<dependencyManagement>`): templates that fill
/// absent fields of dependencies with the same coordinates.
#[derive(Clone, Debug, PartialEq, Eq)]
pub struct DependencyManagement {
    pub dependencies: PomDependencies,
}

impl View for DependencyManagement {
    type V = Seq<DepModel>;

    open spec fn view(&self) -> Seq<DepModel> {
        self.dependencies@
    }
}

impl DependencyManagement {
    pub fn duplicate(&self) -> (r: DependencyManagement)
        ensures
            r@ == self@,
    {
        DependencyManagement { dependencies: self.dependencies.duplicate() }
    }

    pub fn merge(&self, new: &DependencyManagement) -> (r: DependencyManagement)
        ensures
            r@ == merge_deps(self@, new@),
    {
        DependencyManagement { dependencies: self.dependencies.merge(&new.dependencies) }
    }
}

/// Reference to the parent POM (`<parent>`).
#[derive(Clone, Debug, PartialEq, Eq)]
pub struct ParentPom {
    pub group_id: Element,
    pub artifact_id: Element,
    pub version: Element,
}

pub ghost struct ParentModel {
    pub group_id: Seq<char>,
    pub artifact_id: Seq<char>,
    pub version: Seq<char>,
}

impl View for ParentPom {
    type V = ParentModel;

    open spec fn view(&self) -> ParentModel {
        ParentModel {
            group_id: self.group_id@,
            artifact_id: self.artifact_id@,
            version: self.version@,
        }
    }
}

impl ParentPom {
    pub fn duplicate(&self) -> (r: ParentPom)
        ensures
            r@ == self@,
    {
        ParentPom {
            group_id: self.group_id.duplicate(),
            artifact_id: self.artifact_id.duplicate(),
            version: self.version.duplicate(),
        }
    }
}

/// What a POM is, as plain values.
pub ghost struct PomModel {
    pub model_version: Seq<char>,
    pub group_id: Option<Seq<char>>,
    pub artifact_id: Seq<char>,
    pub version: Option<Seq<char>>,
    pub parent: Option<ParentModel>,
    pub properties: Option<Map<Seq<char>, Seq<char>>>,
    pub dependencies: Option<Seq<DepModel>>,
    pub dependency_management: Option<Seq<DepModel>>,
}

/// A project object model.
#[derive(Clone, Debug, PartialEq, Eq)]
pub struct MavenPom {
    pub model_version: Element,
    /// If none, then derived from parent
    pub group_id: Option<Element>,
    pub artifact_id: Element,
    /// If none, then derived from parent
    pub version: Option<Element>,
    /// None if this is a top level pom
    pub parent: Option<ParentPom>,
    pub properties: Option<Properties>,
    pub dependencies: Option<PomDependencies>,
    pub dependency_management: Option<DependencyManagement>,
}

pub open spec fn parent_of(p: Option<ParentPom>) -> Option<ParentModel> {
    match p {
        Some(x) => Some(x@),
        None => None,
    }
}

pub open spec fn props_of(p: Option<Properties>) -> Option<Map<Seq<char>, Seq<char>>> {
    match p {
        Some(x) => Some(x@),
        None => None,
    }
}

pub open spec fn deps_of(p: Option<PomDependencies>) -> Option<Seq<DepModel>> {
    match p {
        Some(x) => Some(x@),
        None => None,
    }
}

pub open spec fn mgmt_of(p: Option<DependencyManagement>) -> Option<Seq<DepModel>> {
    match p {
        Some(x) => Some(x@),
        None => None,
    }
}

impl View for MavenPom {
    type V = PomModel;

    open spec fn view(&self) -> PomModel {
        PomModel {
            model_version: self.model_version@,
            group_id: text_of(self.group_id),
            artifact_id: self.artifact_id@,
            version: text_of(self.version),
            parent: parent_of(self.parent),
            properties: props_of(self.properties),
            dependencies: deps_of(self.dependencies),
            dependency_management: mgmt_of(self.dependency_management),
        }
    }
}

/// The model version that merging sets.
pub open spec fn model_version_4() -> Seq<char> {
    "4.0.0"@
}

/// Union of optional property maps, the child's entries winning.
pub open spec fn merge_opt_props(
    p: Option<Map<Seq<char>, Seq<char>>>,
    c: Option<Map<Seq<char>, Seq<char>>>,
) -> Option<Map<Seq<char>, Seq<char>>> {
    match (p, c) {
        (Some(a), Some(b)) => Some(a.union_prefer_right(b)),
        (Some(a), None) => Some(a),
        (None, Some(b)) => Some(b),
        (None, None) => None,
    }
}

/// Merge of optional dependency lists, the child's folded into the parent's.
pub open spec fn merge_opt_deps(p: Option<Seq<DepModel>>, c: Option<Seq<DepModel>>) -> Option<
    Seq<DepModel>,
> {
    match (p, c) {
        (Some(a), Some(b)) => Some(merge_deps(a, b)),
        (Some(a), None) => Some(a),
        (None, Some(b)) => Some(b),
        (None, None) => None,
    }
}

/// The POM that applying `child` over `parent` yields.
pub open spec fn pom_merge(parent: PomModel, child: PomModel) -> PomModel {
    PomModel {
        model_version: model_version_4(),
        group_id: or_else(child.group_id, parent.group_id),
        artifact_id: child.artifact_id,
        version: or_else(child.version, parent.version),
        parent: None,
        properties: merge_opt_props(parent.properties, child.properties),
        dependencies: merge_opt_deps(parent.dependencies, child.dependencies),
        dependency_management: merge_opt_deps(
            parent.dependency_management,
            child.dependency_management,
        ),
    }
}

/// A dependency with the placeholders of its version expanded.
pub open spec fn dep_resolve(
    d: DepModel,
    props: Map<Seq<char>, Seq<char>>,
    pv: Option<Seq<char>>,
) -> DepModel {
    DepModel {
        version: match d.version {
            Some(v) => Some(resolve(v, props, pv)),
            None => None,
        },
        ..d
    }
}

/// The dependencies that cleaning keeps, completed and resolved.
pub open spec fn cleaned_deps(p: PomModel) -> Seq<DepModel> {
    let rules = match p.dependency_management {
        Some(m) => m,
        None => Seq::empty(),
    };
    let deps = match p.dependencies {
        Some(d) => d,
        None => Seq::empty(),
    };
    let props = match p.properties {
        Some(m) => m,
        None => Map::empty(),
    };
    deps.map_values(|d: DepModel| dep_apply(d, rules)).filter(|d: DepModel| propagates(d)).map_values(
        |d: DepModel| dep_resolve(d, props, p.version),
    )
}

/// The cleaned POM: management applied, non-propagating dependencies
/// dropped, versions resolved, properties and management cleared, and an
/// empty dependency list cleared.
pub open spec fn pom_clean(p: PomModel) -> PomModel {
    let deps = cleaned_deps(p);
    PomModel {
        properties: None,
        dependency_management: None,
        dependencies: if deps.len() == 0 {
            None
        } else {
            Some(deps)
        },
        ..p
    }
}

fn merge_opt_properties(p: &Option<Properties>, c: &Option<Properties>) -> (r: Option<Properties>)
    ensures
        props_of(r) == merge_opt_props(props_of(*p), props_of(*c)),
{
    match (p, c) {
        (Some(a), Some(b)) => Some(a.merge(b)),
        (Some(a), None) => Some(a.duplicate()),
        (None, Some(b)) => Some(b.duplicate()),
        (None, None) => None,
    }
}

fn merge_opt_dependencies(p: &Option<PomDependencies>, c: &Option<PomDependencies>) -> (r: Option<
    PomDependencies,
>)
    ensures
        deps_of(r) == merge_opt_deps(deps_of(*p), deps_of(*c)),
{
    match (p, c) {
        (Some(a), Some(b)) => Some(a.merge(b)),
        (Some(a), None) => Some(a.duplicate()),
        (None, Some(b)) => Some(b.duplicate()),
        (None, None) => None,
    }
}

fn merge_opt_management(
    p: &Option<DependencyManagement>,
    c: &Option<DependencyManagement>,
) -> (r: Option<DependencyManagement>)
    ensures
        mgmt_of(r) == merge_opt_deps(mgmt_of(*p), mgmt_of(*c)),
{
    match (p, c) {
        (Some(a), Some(b)) => Some(a.merge(b)),
        (Some(a), None) => Some(a.duplicate()),
        (None, Some(b)) => Some(b.duplicate()),
        (None, None) => None,
    }
}

/// Keep the dependencies that propagate.
fn retain_propagating(deps: &Vec<PomDependency>) -> (r: Vec<PomDependency>)
    ensures
        deps_view(r@) == deps_view(deps@).filter(|d: DepModel| propagates(d)),
{
    let ghost f = |d: DepModel| propagates(d);
    let mut out: Vec<PomDependency> = Vec::new();
    let n = deps.len();
    for k in 0..n
        invariant
            n == deps.len(),
            f == (|d: DepModel| propagates(d)),
            deps_view(out@) == deps_view(deps@).take(k as int).filter(f),
    {
        let d = &deps[k];
        let compile_or_runtime = match d.scope {
            Some(s) => match s.value {
                MavenDependencyScope::Compile => true,
                MavenDependencyScope::Runtime => true,
                _ => false,
            },
            None => true,
        };
        let optional = match d.optional {
            Some(b) => b,
            None => false,
        };
        let ghost prev = out@;
        if compile_or_runtime && !optional {
            out.push(d.duplicate());
            proof {
                assert(deps_view(out@) =~= deps_view(prev).push(d@));
            }
        }
        proof {
            let s = deps_view(deps@).take(k + 1);
            assert(s.drop_last() =~= deps_view(deps@).take(k as int));
            assert(s.last() == d@);
            reveal(Seq::filter);
            assert(deps_view(out@) =~= s.filter(f));
        }
    }
    proof {
        assert(deps_view(deps@).take(n as int) =~= deps_view(deps@));
    }
    out
}

fn duplicate_parent(p: &Option<ParentPom>) -> (r: Option<ParentPom>)
    ensures
        parent_of(r) == parent_of(*p),
{
    match p {
        Some(x) => Some(x.duplicate()),
        None => None,
    }
}

impl MavenPom {
    pub fn duplicate(&self) -> (r: MavenPom)
        ensures
            r@ == self@,
    {
        MavenPom {
            model_version: self.model_version.duplicate(),
            group_id: duplicate_opt(&self.group_id),
            artifact_id: self.artifact_id.duplicate(),
            version: duplicate_opt(&self.version),
            parent: duplicate_parent(&self.parent),
            properties: merge_opt_properties(&self.properties, &None),
            dependencies: merge_opt_dependencies(&self.dependencies, &None),
            dependency_management: merge_opt_management(&self.dependency_management, &None),
        }
    }

    /// Get a new pom by applying a child pom over a parent pom.
    pub fn merge(&self, new: &MavenPom) -> (r: MavenPom)
        ensures
            r@ == pom_merge(self@, new@),
    {
        MavenPom {
            model_version: Element::new("4.0.0".to_owned()),
            group_id: or_else_elem(&new.group_id, &self.group_id),
            artifact_id: new.artifact_id.duplicate(),
            version: or_else_elem(&new.version, &self.version),
            // The resulting merged pom has no parent
            parent: None,
            properties: merge_opt_properties(&self.properties, &new.properties),
            dependencies: merge_opt_dependencies(&self.dependencies, &new.dependencies),
            dependency_management: merge_opt_management(
                &self.dependency_management,
                &new.dependency_management,
            ),
        }
    }

    /// Reduce the POM to what its dependents need.
    pub fn clean(&mut self)
        ensures
            final(self)@ == pom_clean(old(self)@),
    {
        let ghost p = self@;
        let rules = match &self.dependency_management {
            Some(m) => m.duplicate(),
            None => DependencyManagement { dependencies: PomDependencies { dependencies: Vec::new() } },
        };
        let deps = match &self.dependencies {
            Some(d) => d.duplicate(),
            None => PomDependencies { dependencies: Vec::new() },
        };
        let props = match &self.properties {
            Some(m) => m.duplicate(),
            None => Properties::new(),
        };
        let applied = deps.apply_rules(&rules);
        let kept = retain_propagating(&applied.dependencies);
        let pv: Option<String> = match &self.version {
            Some(v) => Some(v.value.clone()),
            None => None,
        };
        let mut resolved = PomDependencies { dependencies: kept };
        resolved.apply_properties(&props, &pv);
        proof {
            let rs = match p.dependency_management {
                Some(m) => m,
                None => Seq::empty(),
            };
            let ds = match p.dependencies {
                Some(d) => d,
                None => Seq::empty(),
            };
            let pm = match p.properties {
                Some(m) => m,
                None => Map::empty(),
            };
            assert(rules@ =~= rs);
            assert(deps@ =~= ds);
            assert(props@ == pm);
            assert(resolved@ == cleaned_deps(p));
        }
        self.properties = None;
        self.dependency_management = None;
        if resolved.dependencies.len() == 0 {
            self.dependencies = None;
        } else {
            self.dependencies = Some(resolved);
        }
    }
}

} // verus!

//! Reading a POM from XML tokens: each element path sets one part of the
//! model; unknown elements are ignored.

use vstd::prelude::*;
use crate::error::ResolveError;
use crate::pom::{
    DepModel, DependencyManagement, DependencyScope, Element, MavenDependencyScope, MavenPom,
    ParentModel, ParentPom, PomDependencies, PomDependency, PomModel,
};
use crate::properties::{opt_text, Properties};
use crate::text::chars_of;
use crate::xml::{tokens_view, TokenModel, XmlToken};

verus! {

pub open spec fn is_space(c: char) -> bool {
    c == ' ' || c == '\t' || c == '\n' || c == '\r'
}

pub open spec fn trim_start(v: Seq<char>) -> Seq<char>
    decreases v.len(),
{
    if v.len() > 0 && is_space(v[0]) {
        trim_start(v.drop_first())
    } else {
        v
    }
}

pub open spec fn trim_end(v: Seq<char>) -> Seq<char>
    decreases v.len(),
{
    if v.len() > 0 && is_space(v.last()) {
        trim_end(v.drop_last())
    } else {
        v
    }
}

/// `v` without leading and trailing whitespace.
pub open spec fn trimmed(v: Seq<char>) -> Seq<char> {
    trim_end(trim_start(v))
}

/// A trimmed value, absent when it is empty.
pub open spec fn present(v: Seq<char>) -> Option<Seq<char>> {
    if trimmed(v).len() == 0 {
        None
    } else {
        Some(trimmed(v))
    }
}

/// The scope that a `<scope>` text names; an unknown scope is `Compile`.
pub open spec fn scope_named(v: Seq<char>) -> MavenDependencyScope {
    if v == "runtime"@ {
        MavenDependencyScope::Runtime
    } else if v == "test"@ {
        MavenDependencyScope::Test
    } else if v == "provided"@ {
        MavenDependencyScope::Provided
    } else {
        MavenDependencyScope::Compile
    }
}

/// The flag that an `<optional>` text names.
pub open spec fn flag_named(v: Seq<char>) -> Option<bool> {
    if v == "true"@ {
        Some(true)
    } else if v == "false"@ {
        Some(false)
    } else {
        None
    }
}

pub ghost struct PartialDep {
    pub group_id: Option<Seq<char>>,
    pub artifact_id: Option<Seq<char>>,
    pub version: Option<Seq<char>>,
    pub scope: Option<MavenDependencyScope>,
    pub dep_type: Option<Seq<char>>,
    pub optional: Option<bool>,
}

pub open spec fn empty_dep() -> PartialDep {
    PartialDep {
        group_id: None,
        artifact_id: None,
        version: None,
        scope: None,
        dep_type: None,
        optional: None,
    }
}

/// What the reader has gathered so far.
pub ghost struct ReadModel {
    pub stack: Seq<Seq<char>>,
    pub text: Seq<char>,
    pub failed: bool,
    pub done: bool,
    pub model_version: Seq<char>,
    pub group_id: Option<Seq<char>>,
    pub artifact_id: Option<Seq<char>>,
    pub version: Option<Seq<char>>,
    pub has_parent: bool,
    pub parent_group: Option<Seq<char>>,
    pub parent_artifact: Option<Seq<char>>,
    pub parent_version: Option<Seq<char>>,
    pub properties: Map<Seq<char>, Seq<char>>,
    pub has_props: bool,
    pub deps: Seq<DepModel>,
    pub mgmt: Seq<DepModel>,
    pub dep: PartialDep,
}

pub open spec fn initial_read() -> ReadModel {
    ReadModel {
        stack: Seq::empty(),
        text: Seq::empty(),
        failed: false,
        done: false,
        model_version: Seq::empty(),
        group_id: None,
        artifact_id: None,
        version: None,
        has_parent: false,
        parent_group: None,
        parent_artifact: None,
        parent_version: None,
        properties: Map::empty(),
        has_props: false,
        deps: Seq::empty(),
        mgmt: Seq::empty(),
        dep: empty_dep(),
    }
}

pub open spec fn is_dependency_path(p: Seq<Seq<char>>) -> bool {
    (p.len() == 3 && p[0] == "project"@ && p[1] == "dependencies"@ && p[2] == "dependency"@) || (
    p.len() == 4 && p[0] == "project"@ && p[1] == "dependencyManagement"@ && p[2]
        == "dependencies"@ && p[3] == "dependency"@)
}

/// Set field `f` of the dependency being read to the text `v`.
pub open spec fn set_dep_field(st: ReadModel, f: Seq<char>, v: Seq<char>) -> ReadModel {
    let d = st.dep;
    let nd = if f == "groupId"@ {
        PartialDep { group_id: present(v), ..d }
    } else if f == "artifactId"@ {
        PartialDep { artifact_id: present(v), ..d }
    } else if f == "version"@ {
        PartialDep { version: present(v), ..d }
    } else if f == "scope"@ {
        PartialDep {
            scope: match present(v) {
                Some(s) => Some(scope_named(s)),
                None => None,
            },
            ..d
        }
    } else if f == "type"@ {
        PartialDep { dep_type: present(v), ..d }
    } else if f == "optional"@ {
        PartialDep { optional: flag_named(trimmed(v)), ..d }
    } else {
        d
    };
    ReadModel { dep: nd, ..st }
}

/// Add the dependency being read to the dependencies, or to the management
/// rules; without a group or artifact id the text is malformed.
pub open spec fn finish_dep(st: ReadModel, to_mgmt: bool) -> ReadModel {
    let d = st.dep;
    match (d.group_id, d.artifact_id) {
        (Some(g), Some(a)) => {
            let m = DepModel {
                group_id: g,
                artifact_id: a,
                version: d.version,
                scope: d.scope,
                dep_type: d.dep_type,
                optional: d.optional,
            };
            if to_mgmt {
                ReadModel { mgmt: st.mgmt.push(m), ..st }
            } else {
                ReadModel { deps: st.deps.push(m), ..st }
            }
        },
        _ => ReadModel { failed: true, ..st },
    }
}

/// The effect of closing the element at path `p` whose text is `v`.
pub open spec fn assign(st: ReadModel, p: Seq<Seq<char>>, v: Seq<char>) -> ReadModel {
    if p.len() == 2 && p[0] == "project"@ {
        if p[1] == "modelVersion"@ {
            ReadModel { model_version: trimmed(v), ..st }
        } else if p[1] == "groupId"@ {
            ReadModel { group_id: present(v), ..st }
        } else if p[1] == "artifactId"@ {
            ReadModel { artifact_id: present(v), ..st }
        } else if p[1] == "version"@ {
            ReadModel { version: present(v), ..st }
        } else if p[1] == "parent"@ {
            ReadModel { has_parent: true, ..st }
        } else {
            st
        }
    } else if p.len() == 3 && p[0] == "project"@ && p[1] == "parent"@ {
        if p[2] == "groupId"@ {
            ReadModel { parent_group: present(v), ..st }
        } else if p[2] == "artifactId"@ {
            ReadModel { parent_artifact: present(v), ..st }
        } else if p[2] == "version"@ {
            ReadModel { parent_version: present(v), ..st }
        } else {
            st
        }
    } else if p.len() == 3 && p[0] == "project"@ && p[1] == "properties"@ {
        match present(v) {
            Some(x) => ReadModel { properties: st.properties.insert(p[2], x), has_props: true, ..st },
            None => st,
        }
    } else if p.len() == 3 && p[0] == "project"@ && p[1] == "dependencies"@ && p[2]
        == "dependency"@ {
        finish_dep(st, false)
    } else if p.len() == 4 && p[0] == "project"@ && p[1] == "dependencies"@ && p[2]
        == "dependency"@ {
        set_dep_field(st, p[3], v)
    } else if p.len() == 4 && p[0] == "project"@ && p[1] == "dependencyManagement"@ && p[2]
        == "dependencies"@ && p[3] == "dependency"@ {
        finish_dep(st, true)
    } else if p.len() == 5 && p[0] == "project"@ && p[1] == "dependencyManagement"@ && p[2]
        == "dependencies"@ && p[3] == "dependency"@ {
        set_dep_field(st, p[4], v)
    } else {
        st
    }
}

/// The reader after one more token.
pub open spec fn read_step(st: ReadModel, tok: TokenModel) -> ReadModel {
    if st.failed {
        st
    } else {
        match tok {
            TokenModel::Open(n) => {
                if st.done || (st.stack.len() == 0 && n != "project"@) {
                    ReadModel { failed: true, ..st }
                } else {
                    let s2 = st.stack.push(n);
                    ReadModel {
                        stack: s2,
                        text: Seq::empty(),
                        dep: if is_dependency_path(s2) {
                            empty_dep()
                        } else {
                            st.dep
                        },
                        ..st
                    }
                }
            },
            TokenModel::Text(u) => ReadModel { text: st.text + u, ..st },
            TokenModel::Close(n) => {
                if st.stack.len() == 0 || st.stack.last() != n {
                    ReadModel { failed: true, ..st }
                } else {
                    let s2 = assign(st, st.stack, st.text);
                    ReadModel {
                        stack: st.stack.drop_last(),
                        text: Seq::empty(),
                        done: st.stack.len() == 1,
                        ..s2
                    }
                }
            },
        }
    }
}

/// The reader after all the tokens.
pub open spec fn read_all(ts: Seq<TokenModel>) -> ReadModel
    decreases ts.len(),
{
    if ts.len() == 0 {
        initial_read()
    } else {
        read_step(read_all(ts.drop_last()), ts.last())
    }
}

/// The POM that the reader gathered, as written (nothing inherited yet).
pub open spec fn finish_read(st: ReadModel) -> Result<PomModel, ResolveError> {
    if st.failed || !st.done || st.artifact_id is None || (st.has_parent && (st.parent_group is None
        || st.parent_artifact is None || st.parent_version is None)) {
        Err(ResolveError::ParseError)
    } else {
        Ok(
            PomModel {
                model_version: st.model_version,
                group_id: st.group_id,
                artifact_id: st.artifact_id->0,
                version: st.version,
                parent: if st.has_parent {
                    Some(
                        ParentModel {
                            group_id: st.parent_group->0,
                            artifact_id: st.parent_artifact->0,
                            version: st.parent_version->0,
                        },
                    )
                } else {
                    None
                },
                properties: if st.has_props {
                    Some(st.properties)
                } else {
                    None
                },
                dependencies: if st.deps.len() > 0 {
                    Some(st.deps)
                } else {
                    None
                },
                dependency_management: if st.mgmt.len() > 0 {
                    Some(st.mgmt)
                } else {
                    None
                },
            },
        )
    }
}


fn space(c: char) -> (r: bool)
    ensures
        r == is_space(c),
{
    c == ' ' || c == '\t' || c == '\n' || c == '\r'
}

/// `v` without leading and trailing whitespace.
pub fn trim(v: &String) -> (r: String)
    ensures
        r@ == trimmed(v@),
{
    let c = chars_of(v.as_str());
    let n = c.len();
    let mut i: usize = 0;
    proof {
        assert(c@.subrange(0, n as int) =~= c@);
    }
    while i < n && space(c[i])
        invariant
            i <= n,
            n == c.len(),
            c@ == v@,
            trim_start(c@) == trim_start(c@.subrange(i as int, n as int)),
        decreases n - i,
    {
        proof {
            assert(c@.subrange(i as int, n as int).drop_first() =~= c@.subrange(i + 1, n as int));
        }
        i += 1;
    }
    let mut j: usize = n;
    while j > i && space(c[j - 1])
        invariant
            i <= j <= n,
            n == c.len(),
            c@ == v@,
            trim_start(c@) == c@.subrange(i as int, n as int),
            trimmed(c@) == trim_end(c@.subrange(i as int, j as int)),
        decreases j,
    {
        proof {
            assert(c@.subrange(i as int, j as int).drop_last() =~= c@.subrange(i as int, j - 1));
        }
        j -= 1;
    }
    crate::properties::string_of(&c, i, j)
}

pub fn present_of(v: &String) -> (r: Option<String>)
    ensures
        opt_text(r) == present(v@),
{
    let t = trim(v);
    if t.as_str().unicode_len() == 0 {
        None
    } else {
        Some(t)
    }
}

/// Whether `s` reads `lit`.
fn reads(s: &String, lit: &str) -> (r: bool)
    ensures
        r == (s@ == lit@),
{
    *s == lit.to_owned()
}

fn scope_from(v: &String) -> (r: MavenDependencyScope)
    ensures
        r == scope_named(v@),
{
    if reads(v, "runtime") {
        MavenDependencyScope::Runtime
    } else if reads(v, "test") {
        MavenDependencyScope::Test
    } else if reads(v, "provided") {
        MavenDependencyScope::Provided
    } else {
        MavenDependencyScope::Compile
    }
}

fn flag_from(v: &String) -> (r: Option<bool>)
    ensures
        r == flag_named(v@),
{
    if reads(v, "true") {
        Some(true)
    } else if reads(v, "false") {
        Some(false)
    } else {
        None
    }
}

/// Whether element `i` of the path reads `lit`.
fn at_is(stack: &Vec<String>, i: usize, lit: &str) -> (r: bool)
    ensures
        r == (i < stack.len() && stack@[i as int]@ == lit@),
{
    i < stack.len() && reads(&stack[i], lit)
}

pub open spec fn texts(v: Seq<String>) -> Seq<Seq<char>> {
    v.map_values(|s: String| s@)
}

struct PartialDependency {
    group_id: Option<String>,
    artifact_id: Option<String>,
    version: Option<String>,
    scope: Option<MavenDependencyScope>,
    dep_type: Option<String>,
    optional: Option<bool>,
}

impl View for PartialDependency {
    type V = PartialDep;

    closed spec fn view(&self) -> PartialDep {
        PartialDep {
            group_id: opt_text(self.group_id),
            artifact_id: opt_text(self.artifact_id),
            version: opt_text(self.version),
            scope: self.scope,
            dep_type: opt_text(self.dep_type),
            optional: self.optional,
        }
    }
}

fn no_dep() -> (r: PartialDependency)
    ensures
        r@ == empty_dep(),
{
    PartialDependency {
        group_id: None,
        artifact_id: None,
        version: None,
        scope: None,
        dep_type: None,
        optional: None,
    }
}

fn element_of(o: Option<String>) -> (r: Option<Element>)
    ensures
        crate::pom::text_of(r) == opt_text(o),
{
    match o {
        Some(s) => Some(Element::new(s)),
        None => None,
    }
}

/// The reader of a POM's tokens.
struct PomReader {
    stack: Vec<String>,
    text: String,
    failed: bool,
    done: bool,
    model_version: String,
    group_id: Option<String>,
    artifact_id: Option<String>,
    version: Option<String>,
    has_parent: bool,
    parent_group: Option<String>,
    parent_artifact: Option<String>,
    parent_version: Option<String>,
    properties: Properties,
    has_props: bool,
    deps: Vec<PomDependency>,
    mgmt: Vec<PomDependency>,
    dep: PartialDependency,
}

impl View for PomReader {
    type V = ReadModel;

    closed spec fn view(&self) -> ReadModel {
        ReadModel {
            stack: texts(self.stack@),
            text: self.text@,
            failed: self.failed,
            done: self.done,
            model_version: self.model_version@,
            group_id: opt_text(self.group_id),
            artifact_id: opt_text(self.artifact_id),
            version: opt_text(self.version),
            has_parent: self.has_parent,
            parent_group: opt_text(self.parent_group),
            parent_artifact: opt_text(self.parent_artifact),
            parent_version: opt_text(self.parent_version),
            properties: self.properties@,
            has_props: self.has_props,
            deps: crate::pom::deps_view(self.deps@),
            mgmt: crate::pom::deps_view(self.mgmt@),
            dep: self.dep@,
        }
    }
}

impl PomReader {
    fn new() -> (r: PomReader)
        ensures
            r@ == initial_read(),
    {
        let r = PomReader {
            stack: Vec::new(),
            text: String::new(),
            failed: false,
            done: false,
            model_version: String::new(),
            group_id: None,
            artifact_id: None,
            version: None,
            has_parent: false,
            parent_group: None,
            parent_artifact: None,
            parent_version: None,
            properties: Properties::new(),
            has_props: false,
            deps: Vec::new(),
            mgmt: Vec::new(),
            dep: no_dep(),
        };
        proof {
            assert(texts(r.stack@) =~= Seq::<Seq<char>>::empty());
            assert(crate::pom::deps_view(r.deps@) =~= Seq::<DepModel>::empty());
            assert(crate::pom::deps_view(r.mgmt@) =~= Seq::<DepModel>::empty());
        }
        r
    }

    fn set_dep_field(&mut self, f: &String, v: &String)
        ensures
            final(self)@ == set_dep_field(old(self)@, f@, v@),
    {
        if reads(f, "groupId") {
            self.dep.group_id = present_of(v);
        } else if reads(f, "artifactId") {
            self.dep.artifact_id = present_of(v);
        } else if reads(f, "version") {
            self.dep.version = present_of(v);
        } else if reads(f, "scope") {
            self.dep.scope = match present_of(v) {
                Some(s) => Some(scope_from(&s)),
                None => None,
            };
        } else if reads(f, "type") {
            self.dep.dep_type = present_of(v);
        } else if reads(f, "optional") {
            self.dep.optional = flag_from(&trim(v));
        }
    }

    fn finish_dep(&mut self, to_mgmt: bool)
        ensures
            final(self)@ == finish_dep(old(self)@, to_mgmt),
    {
        let ghost before = self@;
        match (&self.dep.group_id, &self.dep.artifact_id) {
            (Some(g), Some(a)) => {
                let m = PomDependency {
                    group_id: Element::new(g.clone()),
                    artifact_id: Element::new(a.clone()),
                    version: element_of(copy_text(&self.dep.version)),
                    scope: match self.dep.scope {
                        Some(s) => Some(DependencyScope { value: s }),
                        None => None,
                    },
                    dep_type: element_of(copy_text(&self.dep.dep_type)),
                    optional: self.dep.optional,
                };
                let ghost mm = m@;
                if to_mgmt {
                    self.mgmt.push(m);
                    proof {
                        assert(crate::pom::deps_view(self.mgmt@) =~= before.mgmt.push(mm));
                    }
                } else {
                    self.deps.push(m);
                    proof {
                        assert(crate::pom::deps_view(self.deps@) =~= before.deps.push(mm));
                    }
                }
            },
            _ => {
                self.failed = true;
            },
        }
    }
}

fn dep_path(stack: &Vec<String>) -> (r: bool)
    ensures
        r == is_dependency_path(texts(stack@)),
{
    let n = stack.len();
    (n == 3 && at_is(stack, 0, "project") && at_is(stack, 1, "dependencies") && at_is(
        stack,
        2,
        "dependency",
    )) || (n == 4 && at_is(stack, 0, "project") && at_is(stack, 1, "dependencyManagement")
        && at_is(stack, 2, "dependencies") && at_is(stack, 3, "dependency"))
}

/// The model of a parse result.
pub open spec fn pom_result(r: Result<MavenPom, ResolveError>) -> Result<PomModel, ResolveError> {
    match r {
        Ok(p) => Ok(p@),
        Err(e) => Err(e),
    }
}

impl PomReader {
    fn assign(&mut self)
        ensures
            final(self)@ == assign(old(self)@, old(self)@.stack, old(self)@.text),
    {
        let v = self.text.clone();
        let n = self.stack.len();
        let project = at_is(&self.stack, 0, "project");
        if n == 2 && project {
            if at_is(&self.stack, 1, "modelVersion") {
                self.model_version = trim(&v);
            } else if at_is(&self.stack, 1, "groupId") {
                self.group_id = present_of(&v);
            } else if at_is(&self.stack, 1, "artifactId") {
                self.artifact_id = present_of(&v);
            } else if at_is(&self.stack, 1, "version") {
                self.version = present_of(&v);
            } else if at_is(&self.stack, 1, "parent") {
                self.has_parent = true;
            }
        } else if n == 3 && project && at_is(&self.stack, 1, "parent") {
            if at_is(&self.stack, 2, "groupId") {
                self.parent_group = present_of(&v);
            } else if at_is(&self.stack, 2, "artifactId") {
                self.parent_artifact = present_of(&v);
            } else if at_is(&self.stack, 2, "version") {
                self.parent_version = present_of(&v);
            }
        } else if n == 3 && project && at_is(&self.stack, 1, "properties") {
            match present_of(&v) {
                Some(x) => {
                    let k = self.stack[2].clone();
                    self.properties.insert(k, x);
                    self.has_props = true;
                },
                None => {},
            }
        } else if n == 3 && project && at_is(&self.stack, 1, "dependencies") && at_is(
            &self.stack,
            2,
            "dependency",
        ) {
            self.finish_dep(false);
        } else if n == 4 && project && at_is(&self.stack, 1, "dependencies") && at_is(
            &self.stack,
            2,
            "dependency",
        ) {
            let f = self.stack[3].clone();
            self.set_dep_field(&f, &v);
        } else if n == 4 && project && at_is(&self.stack, 1, "dependencyManagement") && at_is(
            &self.stack,
            2,
            "dependencies",
        ) && at_is(&self.stack, 3, "dependency") {
            self.finish_dep(true);
        } else if n == 5 && project && at_is(&self.stack, 1, "dependencyManagement") && at_is(
            &self.stack,
            2,
            "dependencies",
        ) && at_is(&self.stack, 3, "dependency") {
            let f = self.stack[4].clone();
            self.set_dep_field(&f, &v);
        }
    }

    fn step(&mut self, tok: &XmlToken)
        ensures
            final(self)@ == read_step(old(self)@, tok@),
    {
        let ghost before = self@;
        if self.failed {
            return ;
        }
        match tok {
            XmlToken::Open(n) => {
                if self.done || (self.stack.len() == 0 && !reads(n, "project")) {
                    self.failed = true;
                } else {
                    self.stack.push(n.clone());
                    self.text = String::new();
                    proof {
                        assert(texts(self.stack@) =~= before.stack.push(n@));
                    }
                    if dep_path(&self.stack) {
                        self.dep = no_dep();
                    }
                }
            },
            XmlToken::Text(u) => {
                self.text.append(u.as_str());
            },
            XmlToken::Close(n) => {
                let len = self.stack.len();
                if len == 0 || !(self.stack[len - 1] == *n) {
                    self.failed = true;
                } else {
                    self.assign();
                    let ghost mid = self@;
                    self.stack.pop();
                    self.text = String::new();
                    self.done = len == 1;
                    proof {
                        assert(texts(self.stack@) =~= before.stack.drop_last());
                    }
                }
            },
        }
    }

    fn finish(self) -> (r: Result<MavenPom, ResolveError>)
        ensures
            pom_result(r) == finish_read(self@),
    {
        let ghost st = self@;
        let PomReader {
            stack,
            text,
            failed,
            done,
            model_version,
            group_id,
            artifact_id,
            version,
            has_parent,
            parent_group,
            parent_artifact,
            parent_version,
            properties,
            has_props,
            deps,
            mgmt,
            dep,
        } = self;
        if failed || !done || artifact_id.is_none() || (has_parent && (parent_group.is_none()
            || parent_artifact.is_none() || parent_version.is_none())) {
            return Err(ResolveError::ParseError);
        }
        let parent = if has_parent {
            Some(
                ParentPom {
                    group_id: Element::new(parent_group.unwrap()),
                    artifact_id: Element::new(parent_artifact.unwrap()),
                    version: Element::new(parent_version.unwrap()),
                },
            )
        } else {
            None
        };
        let r = MavenPom {
            model_version: Element::new(model_version),
            group_id: element_of(group_id),
            artifact_id: Element::new(artifact_id.unwrap()),
            version: element_of(version),
            parent,
            properties: if has_props {
                Some(properties)
            } else {
                None
            },
            dependencies: if deps.len() > 0 {
                Some(PomDependencies { dependencies: deps })
            } else {
                None
            },
            dependency_management: if mgmt.len() > 0 {
                Some(DependencyManagement { dependencies: PomDependencies { dependencies: mgmt } })
            } else {
                None
            },
        };
        proof {
            assert(pom_result(Ok(r)) == finish_read(st));
        }
        Ok(r)
    }
}

/// The POM that a token sequence describes, as written.
pub fn read_pom(tokens: &Vec<XmlToken>) -> (r: Result<MavenPom, ResolveError>)
    ensures
        pom_result(r) == finish_read(read_all(tokens_view(tokens@))),
{
    let mut rd = PomReader::new();
    let n = tokens.len();
    for k in 0..n
        invariant
            n == tokens.len(),
            rd@ == read_all(tokens_view(tokens@).take(k as int)),
    {
        rd.step(&tokens[k]);
        proof {
            let t = tokens_view(tokens@).take(k + 1);
            assert(t.drop_last() =~= tokens_view(tokens@).take(k as int));
            assert(t.last() == tokens@[k as int]@);
        }
    }
    proof {
        assert(tokens_view(tokens@).take(n as int) =~= tokens_view(tokens@));
    }
    rd.finish()
}

fn copy_text(o: &Option<String>) -> (r: Option<String>)
    ensures
        opt_text(r) == opt_text(*o),
{
    match o {
        Some(s) => Some(s.clone()),
        None => None,
    }
}

} // verus!
